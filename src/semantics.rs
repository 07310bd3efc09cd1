//! What partial evaluation computes, stated as spec functions over an
//! abstract evaluation state. The executable specializer is proved to
//! follow these definitions step for step.
use vstd::prelude::*;
use crate::rir::{CallableId, CallableType, Double, Instruction, Literal, Operand, Ty, Variable};
use crate::source::{BinOp, ComputeProps, Expr, ProgramEntry, SourceProgram, Stmt};

verus! {

/// Target capability: forward branching on values known only at run time.
pub const ADAPTIVE: u64 = 1;

/// Target capability: branching backwards, as a runtime loop needs.
pub const BACKWARDS_BRANCHING: u64 = 8;

/// Most loop iterations that one loop may run before evaluation gives up.
pub const ITERATION_CAP: u64 = 100000;

/// Deepest nesting of expressions, statements and blocks that evaluation
/// follows before it gives up.
pub const DEPTH_CAP: u64 = 256;

/// Where in the source program an error arose.
#[derive(Clone, Copy, Debug, PartialEq, Eq, Structural)]
pub enum Loc {
    Expr(usize),
    Stmt(usize),
    Block(usize),
}

#[derive(Clone, Copy, Debug, PartialEq, Eq, Structural)]
#[allow(inconsistent_fields)]
pub enum Error {
    /// A condition needs a runtime value and the target lacks the
    /// capabilities in `missing` to branch on it.
    UnsupportedRuntimeCapability { at: usize, missing: u64 },
    /// A condition needs a runtime value; the target could branch on it,
    /// but this evaluation mode only unrolls.
    UnsupportedDynamicControlFlow { at: usize },
    /// A loop ran past the iteration cap, or nesting passed the depth cap.
    UnboundedLoop { at: Loc },
    /// An expression has no compile-time evaluation strategy.
    UnsupportedExpressionForm { at: usize },
    /// Integer arithmetic left the 64-bit range.
    IntegerOverflow { at: usize },
    /// An array index is outside its array.
    IndexOutOfRange { at: usize },
    /// The program refers to something that does not exist.
    InvalidProgram { at: Loc },
}

/// A compile-time value. Arrays live in the evaluator's item pool;
/// `Var` is a value known only at run time, held in a runtime variable.
#[derive(Clone, Copy, Debug, PartialEq, Eq, Structural)]
pub enum Value {
    Unit,
    Int(i64),
    Bool(bool),
    Double(Double),
    Qubit(u64),
    Array { start: usize, len: usize },
    Var(Variable),
}

/// A binding of a source local; `owned` marks a qubit that the binding's
/// scope releases at its exit.
#[derive(Clone, Copy, Debug, PartialEq, Eq, Structural)]
pub struct Binding {
    pub local: u64,
    pub value: Value,
    pub owned: bool,
}

/// The runtime variable in which a mutable local is materialized.
#[derive(Clone, Copy, Debug, PartialEq, Eq, Structural)]
pub struct Slot {
    pub local: u64,
    pub var: u64,
}

#[derive(Clone, Copy, Debug, PartialEq, Eq, Structural)]
pub enum RecordKind {
    Tuple,
    Int,
    Bool,
    Result,
}

/// What an entry of the emitted callable table stands for.
#[derive(Clone, Copy, Debug, PartialEq, Eq, Structural)]
pub enum CallableSource {
    Entry,
    Op(usize),
    Record(RecordKind),
}

/// The evaluation state: bindings (innermost last), materialized mutable
/// locals, the array item pool, the qubit allocator (`qnext` never yet
/// handed out, `qfree` released ids), the next runtime variable id, and
/// the program emitted so far.
pub struct State {
    pub env: Seq<Binding>,
    pub slots: Seq<Slot>,
    pub items: Seq<Value>,
    pub qnext: u64,
    pub qfree: Seq<u64>,
    pub next_var: u64,
    pub instrs: Seq<Instruction>,
    pub operands: Seq<Operand>,
    pub callables: Seq<CallableSource>,
}

/// What evaluation reads and never changes.
pub struct Ctx {
    pub p: SourceProgram,
    pub props: Seq<ComputeProps>,
    pub caps: u64,
}

/// The state before evaluation: nothing bound or emitted, and the entry
/// callable alone in the table.
pub open spec fn initial_state() -> State {
    State {
        env: Seq::empty(),
        slots: Seq::empty(),
        items: Seq::empty(),
        qnext: 0,
        qfree: Seq::empty(),
        next_var: 0,
        instrs: Seq::empty(),
        operands: Seq::empty(),
        callables: seq![CallableSource::Entry],
    }
}

// ---- bindings and slots ----

/// Index of the innermost binding of `local` among the first `n`, or -1.
pub open spec fn find_binding(env: Seq<Binding>, local: u64, n: int) -> int
    decreases n,
{
    if n <= 0 {
        -1
    } else if env[n - 1].local == local {
        n - 1
    } else {
        find_binding(env, local, n - 1)
    }
}

/// Index of the slot of `local` among the first `n`, or -1.
pub open spec fn find_slot(slots: Seq<Slot>, local: u64, n: int) -> int
    decreases n,
{
    if n <= 0 {
        -1
    } else if slots[n - 1].local == local {
        n - 1
    } else {
        find_slot(slots, local, n - 1)
    }
}

/// The literal and type under which a value is stored in a runtime
/// variable; only scalar classical values are.
pub open spec fn store_literal(v: Value) -> Option<(Ty, Literal)> {
    match v {
        Value::Int(n) => Some((Ty::Integer, Literal::Integer(n))),
        Value::Bool(b) => Some((Ty::Boolean, Literal::Bool(b))),
        Value::Double(d) => Some((Ty::Double, Literal::Double(d))),
        _ => None,
    }
}

/// The variable of `local`'s slot, allocating a fresh one if it has none.
pub open spec fn slot_var(s: State, local: u64) -> Option<(State, u64)> {
    let i = find_slot(s.slots, local, s.slots.len() as int);
    if i >= 0 {
        Some((s, s.slots[i].var))
    } else if s.next_var == u64::MAX {
        None
    } else {
        Some(
            (
                State {
                    slots: s.slots.push(Slot { local, var: s.next_var }),
                    next_var: (s.next_var + 1) as u64,
                    ..s
                },
                s.next_var,
            ),
        )
    }
}

/// Appends a store of `o` in `var`.
pub open spec fn emit_store(s: State, var: Variable, o: Operand) -> State {
    State { instrs: s.instrs.push(Instruction::Store(var, o)), ..s }
}

/// Declares the mutable `local` holding `v`: a storable value is
/// stored in the local's variable.
pub open spec fn materialize(s: State, local: u64, v: Value, at: Loc) -> (State, Result<(), Error>) {
    match store_literal(v) {
        None => (s, Ok(())),
        Some((ty, lit)) => match slot_var(s, local) {
            None => (s, Err(Error::InvalidProgram { at })),
            Some((s1, var)) => (
                emit_store(s1, Variable { id: var, ty }, Operand::Literal(lit)),
                Ok(()),
            ),
        },
    }
}

/// Records a new value of `local`, stored if the local has a variable.
pub open spec fn restore(s: State, local: u64, v: Value) -> State {
    let i = find_slot(s.slots, local, s.slots.len() as int);
    match store_literal(v) {
        Some((ty, lit)) => if i >= 0 {
            emit_store(s, Variable { id: s.slots[i].var, ty }, Operand::Literal(lit))
        } else {
            s
        },
        None => s,
    }
}

// ---- qubits ----

/// Hands out the most recently released qubit, else a never-used one.
pub open spec fn alloc_qubit(s: State) -> Option<(State, u64)> {
    if s.qfree.len() > 0 {
        Some((State { qfree: s.qfree.drop_last(), ..s }, s.qfree.last()))
    } else if s.qnext == u64::MAX {
        None
    } else {
        Some((State { qnext: (s.qnext + 1) as u64, ..s }, s.qnext))
    }
}

/// The qubits handed out and not released.
pub open spec fn live_qubits(s: State) -> Set<u64> {
    Set::new(|q: u64| q < s.qnext && !s.qfree.contains(q))
}

/// The allocator's own invariant: every released id was handed out, and
/// none is released twice.
pub open spec fn allocator_wf(s: State) -> bool {
    &&& forall|i: int| 0 <= i < s.qfree.len() ==> #[trigger] s.qfree[i] < s.qnext
    &&& s.qfree.no_duplicates()
}

/// Qubit ownership is consistent: every released id was handed out and is
/// released once, every owning binding holds a live qubit, and no two
/// owning bindings hold the same one.
pub open spec fn qubits_wf(s: State) -> bool {
    &&& allocator_wf(s)
    &&& forall|i: int| 0 <= i < s.env.len() && (#[trigger] s.env[i]).owned ==> owns_live(s, s.env[i])
    &&& forall|i: int, j: int|
        0 <= i < j < s.env.len() && (#[trigger] s.env[i]).owned && (#[trigger] s.env[j]).owned
            ==> s.env[i].value != s.env[j].value
}

/// The binding holds a qubit that is live in `s`.
pub open spec fn owns_live(s: State, b: Binding) -> bool {
    match b.value {
        Value::Qubit(q) => q < s.qnext && !s.qfree.contains(q),
        _ => false,
    }
}

/// Releases, innermost first, the owned qubits of bindings `mark..n`.
pub open spec fn release_from(qfree: Seq<u64>, env: Seq<Binding>, mark: int, n: int) -> Seq<u64>
    decreases n - mark,
{
    if n <= mark {
        qfree
    } else {
        let b = env[n - 1];
        let f = match b.value {
            Value::Qubit(q) => if b.owned {
                qfree.push(q)
            } else {
                qfree
            },
            _ => qfree,
        };
        release_from(f, env, mark, n - 1)
    }
}

/// The first `mark` bindings; all of them if there are no more.
pub open spec fn truncate_env(env: Seq<Binding>, mark: int) -> Seq<Binding> {
    if 0 <= mark <= env.len() {
        env.subrange(0, mark)
    } else {
        env
    }
}

/// Leaves a scope opened when the environment had `mark` bindings.
pub open spec fn close_scope(s: State, mark: int) -> State {
    State {
        qfree: release_from(s.qfree, s.env, mark, s.env.len() as int),
        env: truncate_env(s.env, mark),
        ..s
    }
}

// ---- callables ----

/// Two table entries stand for the same callable: the same operation name,
/// kind and signature, or the same recording function.
pub open spec fn same_source(p: SourceProgram, a: CallableSource, b: CallableSource) -> bool {
    match (a, b) {
        (CallableSource::Entry, CallableSource::Entry) => true,
        (CallableSource::Record(x), CallableSource::Record(y)) => x == y,
        (CallableSource::Op(j), CallableSource::Op(k)) => {
            &&& p.ops@[j as int].name@ == p.ops@[k as int].name@
            &&& p.ops@[j as int].call_type == p.ops@[k as int].call_type
            &&& p.ops@[j as int].input_type@ == p.ops@[k as int].input_type@
            &&& p.ops@[j as int].output_type == p.ops@[k as int].output_type
        },
        _ => false,
    }
}

/// First index at or after `i` of a callable the same as `src`, or -1.
pub open spec fn find_callable(
    p: SourceProgram,
    cs: Seq<CallableSource>,
    src: CallableSource,
    i: int,
) -> int
    decreases cs.len() - i,
{
    if i >= cs.len() || i < 0 {
        -1
    } else if same_source(p, cs[i], src) {
        i
    } else {
        find_callable(p, cs, src, i + 1)
    }
}

/// The id of the callable for `src`: an existing one the same as it, else
/// a new entry at the end of the table.
pub open spec fn resolve(p: SourceProgram, cs: Seq<CallableSource>, src: CallableSource) -> (
    Seq<CallableSource>,
    int,
) {
    let i = find_callable(p, cs, src, 0);
    if i >= 0 {
        (cs, i)
    } else {
        (cs.push(src), cs.len() as int)
    }
}

/// Resolves the callable for `src` and appends a call of it with `args`.
pub open spec fn emit_call(
    p: SourceProgram,
    s: State,
    src: CallableSource,
    args: Seq<Operand>,
    result: Option<Variable>,
) -> State {
    let (cs, id) = resolve(p, s.callables, src);
    State {
        callables: cs,
        instrs: s.instrs.push(
            Instruction::Call {
                callable: CallableId(id as usize),
                args_start: s.operands.len() as usize,
                args_len: args.len() as usize,
                result,
            },
        ),
        operands: s.operands + args,
        ..s
    }
}

// ---- values ----

/// The operand by which a value is passed to a call.
pub open spec fn operand_of(v: Value) -> Option<Operand> {
    match v {
        Value::Int(n) => Some(Operand::Literal(Literal::Integer(n))),
        Value::Bool(b) => Some(Operand::Literal(Literal::Bool(b))),
        Value::Double(d) => Some(Operand::Literal(Literal::Double(d))),
        Value::Qubit(q) => Some(Operand::Literal(Literal::Qubit(q))),
        Value::Var(x) => Some(Operand::Variable(x)),
        _ => None,
    }
}

/// The operands of argument values, if every one of them can be passed.
pub open spec fn operands_of(vs: Seq<Value>) -> Option<Seq<Operand>> {
    if forall|i: int| 0 <= i < vs.len() ==> (#[trigger] operand_of(vs[i])) is Some {
        Some(vs.map_values(|v: Value| operand_of(v)->Some_0))
    } else {
        None
    }
}

/// `x` fits in an `i64`.
pub open spec fn in_i64(x: int) -> bool {
    i64::MIN <= x <= i64::MAX
}

/// A binary operator on two classical values; `at` is the expression.
pub open spec fn binop(op: BinOp, a: Value, b: Value, at: usize) -> Result<Value, Error> {
    match (a, b) {
        (Value::Int(x), Value::Int(y)) => match op {
            BinOp::Add => if in_i64(x + y) {
                Ok(Value::Int((x + y) as i64))
            } else {
                Err(Error::IntegerOverflow { at })
            },
            BinOp::Sub => if in_i64(x - y) {
                Ok(Value::Int((x - y) as i64))
            } else {
                Err(Error::IntegerOverflow { at })
            },
            BinOp::Mul => if in_i64(x * y) {
                Ok(Value::Int((x * y) as i64))
            } else {
                Err(Error::IntegerOverflow { at })
            },
            BinOp::Eq => Ok(Value::Bool(x == y)),
            BinOp::Ne => Ok(Value::Bool(x != y)),
            BinOp::Lt => Ok(Value::Bool(x < y)),
            BinOp::Le => Ok(Value::Bool(x <= y)),
            BinOp::Gt => Ok(Value::Bool(x > y)),
            BinOp::Ge => Ok(Value::Bool(x >= y)),
            _ => Err(Error::UnsupportedExpressionForm { at }),
        },
        (Value::Bool(x), Value::Bool(y)) => match op {
            BinOp::Eq => Ok(Value::Bool(x == y)),
            BinOp::Ne => Ok(Value::Bool(x != y)),
            BinOp::And => Ok(Value::Bool(x && y)),
            BinOp::Or => Ok(Value::Bool(x || y)),
            _ => Err(Error::UnsupportedExpressionForm { at }),
        },
        _ => Err(Error::UnsupportedExpressionForm { at }),
    }
}

/// `a op _` whose result is `a` without evaluating the right operand.
pub open spec fn short_circuits(op: BinOp, a: Value) -> bool {
    (op == BinOp::And && a == Value::Bool(false)) || (op == BinOp::Or && a == Value::Bool(true))
}

// ---- capability gate ----

/// The compute properties of expression `e`; one without an entry counts
/// as needing a runtime value.
pub open spec fn props_of(c: Ctx, e: usize) -> ComputeProps {
    if e < c.props.len() {
        c.props[e as int]
    } else {
        ComputeProps { requires_runtime_value: true, required_capabilities: 0 }
    }
}

/// Whether condition `e` may be decided at compile time; `need` is what a
/// runtime branch on it would take of the target.
pub open spec fn gate(c: Ctx, e: usize, need: u64) -> Result<(), Error> {
    let pr = props_of(c, e);
    if !pr.requires_runtime_value {
        Ok(())
    } else if (pr.required_capabilities | need) & !c.caps != 0 {
        Err(
            Error::UnsupportedRuntimeCapability {
                at: e,
                missing: (pr.required_capabilities | need) & !c.caps,
            },
        )
    } else {
        Err(Error::UnsupportedDynamicControlFlow { at: e })
    }
}

// ---- evaluation ----

/// Evaluates expression `e`, with `fuel` levels of nesting left: the
/// state after it and its value, or the first error. A call of an
/// operation emits that call; a call with a result binds a fresh runtime
/// variable to it.
pub open spec fn eval_expr(c: Ctx, s: State, e: usize, fuel: nat) -> (State, Result<
    Value,
    Error,
>)
    decreases fuel, 0nat, 0nat,
{
    if fuel == 0 {
        (s, Err(Error::UnboundedLoop { at: Loc::Expr(e) }))
    } else if e >= c.p.exprs@.len() {
        (s, Err(Error::InvalidProgram { at: Loc::Expr(e) }))
    } else {
        let f = (fuel - 1) as nat;
        match c.p.exprs@[e as int] {
            Expr::Unit => (s, Ok(Value::Unit)),
            Expr::Int(n) => (s, Ok(Value::Int(n))),
            Expr::Bool(b) => (s, Ok(Value::Bool(b))),
            Expr::Double(d) => (s, Ok(Value::Double(d))),
            Expr::Local(x) => {
                let i = find_binding(s.env, x, s.env.len() as int);
                if i >= 0 {
                    (s, Ok(s.env[i].value))
                } else {
                    (s, Err(Error::InvalidProgram { at: Loc::Expr(e) }))
                }
            },
            Expr::Not(a) => {
                let (s1, r) = eval_expr(c, s, a, f);
                match r {
                    Err(err) => (s1, Err(err)),
                    Ok(Value::Bool(b)) => (s1, Ok(Value::Bool(!b))),
                    Ok(_) => (s1, Err(Error::UnsupportedExpressionForm { at: e })),
                }
            },
            Expr::Binary(op, a, b) => {
                let (s1, ra) = eval_expr(c, s, a, f);
                match ra {
                    Err(err) => (s1, Err(err)),
                    Ok(va) => if short_circuits(op, va) {
                        (s1, Ok(va))
                    } else {
                        let (s2, rb) = eval_expr(c, s1, b, f);
                        match rb {
                            Err(err) => (s2, Err(err)),
                            Ok(vb) => (s2, binop(op, va, vb, e)),
                        }
                    },
                }
            },
            Expr::Array(l) => if l >= c.p.lists@.len() {
                (s, Err(Error::InvalidProgram { at: Loc::Expr(e) }))
            } else {
                let (s1, r) = eval_list(c, s, c.p.lists@[l as int]@, 0, f);
                match r {
                    Err(err) => (s1, Err(err)),
                    Ok(vs) => (
                        State { items: s1.items + vs, ..s1 },
                        Ok(Value::Array { start: s1.items.len() as usize, len: vs.len() as usize }),
                    ),
                }
            },
            Expr::Index(a, i) => {
                let (s1, ra) = eval_expr(c, s, a, f);
                match ra {
                    Err(err) => (s1, Err(err)),
                    Ok(va) => {
                        let (s2, ri) = eval_expr(c, s1, i, f);
                        match ri {
                            Err(err) => (s2, Err(err)),
                            Ok(vi) => match (va, vi) {
                                (Value::Array { start, len }, Value::Int(k)) => if 0 <= k < len
                                    && start + k < s2.items.len() {
                                    (s2, Ok(s2.items[start + k]))
                                } else {
                                    (s2, Err(Error::IndexOutOfRange { at: e }))
                                },
                                _ => (s2, Err(Error::UnsupportedExpressionForm { at: e })),
                            },
                        }
                    },
                }
            },
            Expr::Call(op, l) => if op >= c.p.ops@.len() || l >= c.p.lists@.len() {
                (s, Err(Error::InvalidProgram { at: Loc::Expr(e) }))
            } else {
                let (s1, r) = eval_list(c, s, c.p.lists@[l as int]@, 0, f);
                match r {
                    Err(err) => (s1, Err(err)),
                    Ok(vs) => match operands_of(vs) {
                        None => (s1, Err(Error::UnsupportedExpressionForm { at: e })),
                        Some(args) => match c.p.ops@[op as int].output_type {
                            None => (
                                emit_call(c.p, s1, CallableSource::Op(op), args, None),
                                Ok(Value::Unit),
                            ),
                            Some(ty) => if s1.next_var == u64::MAX {
                                (s1, Err(Error::InvalidProgram { at: Loc::Expr(e) }))
                            } else {
                                let x = Variable { id: s1.next_var, ty };
                                let s2 = State { next_var: (s1.next_var + 1) as u64, ..s1 };
                                (
                                    emit_call(c.p, s2, CallableSource::Op(op), args, Some(x)),
                                    Ok(Value::Var(x)),
                                )
                            },
                        },
                    },
                }
            },
        }
    }
}

/// Evaluates `ids[i..]` left to right, stopping at the first error.
pub open spec fn eval_list(c: Ctx, s: State, ids: Seq<usize>, i: int, fuel: nat) -> (State, Result<
    Seq<Value>,
    Error,
>)
    decreases fuel, 1nat, ids.len() - i,
{
    if i >= ids.len() || i < 0 {
        (s, Ok(Seq::empty()))
    } else {
        let (s1, r) = eval_expr(c, s, ids[i], fuel);
        match r {
            Err(err) => (s1, Err(err)),
            Ok(v) => {
                let (s2, rest) = eval_list(c, s1, ids, i + 1, fuel);
                match rest {
                    Err(err) => (s2, Err(err)),
                    Ok(vs) => (s2, Ok(seq![v] + vs)),
                }
            },
        }
    }
}

/// Decides condition `e` at compile time, after the capability gate.
pub open spec fn eval_cond(c: Ctx, s: State, e: usize, need: u64, fuel: nat) -> (State, Result<
    bool,
    Error,
>)
    decreases fuel, 0nat, 1nat,
{
    match gate(c, e, need) {
        Err(err) => (s, Err(err)),
        Ok(()) => {
            let (s1, r) = eval_expr(c, s, e, fuel);
            match r {
                Err(err) => (s1, Err(err)),
                Ok(Value::Bool(b)) => (s1, Ok(b)),
                Ok(_) => (s1, Err(Error::InvalidProgram { at: Loc::Expr(e) })),
            }
        },
    }
}

/// Binds `local` to `v` in the innermost scope.
pub open spec fn bind(s: State, local: u64, v: Value, owned: bool) -> State {
    State { env: s.env.push(Binding { local, value: v, owned }), ..s }
}

/// Runs statement `i`, with `fuel` levels of nesting left. Loops are
/// unrolled; a mutable local is stored in its runtime variable when it is
/// declared or assigned with `=`, not when updated in place. A qubit
/// binding cannot be assigned.
pub open spec fn exec_stmt(c: Ctx, s: State, i: usize, fuel: nat) -> (State, Result<(), Error>)
    decreases fuel, 2nat, 0nat,
{
    if fuel == 0 {
        (s, Err(Error::UnboundedLoop { at: Loc::Stmt(i) }))
    } else if i >= c.p.stmts@.len() {
        (s, Err(Error::InvalidProgram { at: Loc::Stmt(i) }))
    } else {
        let f = (fuel - 1) as nat;
        match c.p.stmts@[i as int] {
            Stmt::Let(x, e) => {
                let (s1, r) = eval_expr(c, s, e, f);
                match r {
                    Err(err) => (s1, Err(err)),
                    Ok(v) => (bind(s1, x, v, false), Ok(())),
                }
            },
            Stmt::Mutable(x, e) => {
                let (s1, r) = eval_expr(c, s, e, f);
                match r {
                    Err(err) => (s1, Err(err)),
                    Ok(v) => {
                        let (s2, r2) = materialize(s1, x, v, Loc::Stmt(i));
                        match r2 {
                            Err(err) => (s2, Err(err)),
                            Ok(()) => (bind(s2, x, v, false), Ok(())),
                        }
                    },
                }
            },
            Stmt::Assign(x, e) => {
                let (s1, r) = eval_expr(c, s, e, f);
                match r {
                    Err(err) => (s1, Err(err)),
                    Ok(v) => {
                        let k = find_binding(s1.env, x, s1.env.len() as int);
                        if k < 0 || s1.env[k].owned {
                            (s1, Err(Error::InvalidProgram { at: Loc::Stmt(i) }))
                        } else {
                            let s2 = State {
                                env: s1.env.update(k, Binding { value: v, ..s1.env[k] }),
                                ..s1
                            };
                            (restore(s2, x, v), Ok(()))
                        }
                    },
                }
            },
            Stmt::AssignOp(op, x, e) => {
                let (s1, r) = eval_expr(c, s, e, f);
                match r {
                    Err(err) => (s1, Err(err)),
                    Ok(vb) => {
                        let k = find_binding(s1.env, x, s1.env.len() as int);
                        if k < 0 || s1.env[k].owned {
                            (s1, Err(Error::InvalidProgram { at: Loc::Stmt(i) }))
                        } else {
                            match binop(op, s1.env[k].value, vb, e) {
                                Err(err) => (s1, Err(err)),
                                Ok(v) => (
                                    State {
                                        env: s1.env.update(k, Binding { value: v, ..s1.env[k] }),
                                        ..s1
                                    },
                                    Ok(()),
                                ),
                            }
                        }
                    },
                }
            },
            Stmt::Expr(e) => {
                let (s1, r) = eval_expr(c, s, e, f);
                match r {
                    Err(err) => (s1, Err(err)),
                    Ok(_) => (s1, Ok(())),
                }
            },
            Stmt::Use(x) => match alloc_qubit(s) {
                None => (s, Err(Error::InvalidProgram { at: Loc::Stmt(i) })),
                Some((s1, q)) => (bind(s1, x, Value::Qubit(q), true), Ok(())),
            },
            Stmt::If(cond, t, els) => {
                let (s1, r) = eval_cond(c, s, cond, ADAPTIVE, f);
                match r {
                    Err(err) => (s1, Err(err)),
                    Ok(true) => exec_block(c, s1, t, f),
                    Ok(false) => match els {
                        Some(b) => exec_block(c, s1, b, f),
                        None => (s1, Ok(())),
                    },
                }
            },
            Stmt::While { cond, body } => run_while(c, s, cond, body, f, ITERATION_CAP as nat),
            Stmt::RepeatUntil { flag, body, cond } => match slot_var(s, flag) {
                None => (s, Err(Error::InvalidProgram { at: Loc::Stmt(i) })),
                Some((s1, var)) => {
                    let s2 = emit_store(
                        s1,
                        Variable { id: var, ty: Ty::Boolean },
                        Operand::Literal(Literal::Bool(true)),
                    );
                    run_repeat(c, s2, var, body, cond, f, ITERATION_CAP as nat)
                },
            },
            Stmt::ForRange { item, counter, start, end, body } => {
                let (s1, ra) = eval_expr(c, s, start, f);
                match ra {
                    Err(err) => (s1, Err(err)),
                    Ok(va) => {
                        let (s2, rz) = eval_expr(c, s1, end, f);
                        match rz {
                            Err(err) => (s2, Err(err)),
                            Ok(vz) => match (va, vz) {
                                (Value::Int(a), Value::Int(z)) => {
                                    let (s3, r3) = materialize(s2, counter, va, Loc::Stmt(i));
                                    match r3 {
                                        Err(err) => (s3, Err(err)),
                                        Ok(()) => run_range(
                                            c,
                                            s3,
                                            item,
                                            a,
                                            z,
                                            body,
                                            i,
                                            f,
                                            ITERATION_CAP as nat,
                                        ),
                                    }
                                },
                                _ => (s2, Err(Error::UnsupportedExpressionForm { at: start })),
                            },
                        }
                    },
                }
            },
            Stmt::ForArray { item, counter, array, body } => {
                let (s1, ra) = eval_expr(c, s, array, f);
                match ra {
                    Err(err) => (s1, Err(err)),
                    Ok(Value::Array { start, len }) => {
                        let (s2, r2) = materialize(s1, counter, Value::Int(0), Loc::Stmt(i));
                        match r2 {
                            Err(err) => (s2, Err(err)),
                            Ok(()) => run_array(
                                c,
                                s2,
                                item,
                                start,
                                len,
                                0,
                                body,
                                i,
                                f,
                                ITERATION_CAP as nat,
                            ),
                        }
                    },
                    Ok(_) => (s1, Err(Error::UnsupportedExpressionForm { at: array })),
                }
            },
        }
    }
}

/// Runs statements `ids[i..]` in order, stopping at the first error.
pub open spec fn exec_stmts(c: Ctx, s: State, ids: Seq<usize>, i: int, fuel: nat) -> (State, Result<
    (),
    Error,
>)
    decreases fuel, 3nat, ids.len() - i,
{
    if i >= ids.len() || i < 0 {
        (s, Ok(()))
    } else {
        let (s1, r) = exec_stmt(c, s, ids[i], fuel);
        match r {
            Err(err) => (s1, Err(err)),
            Ok(()) => exec_stmts(c, s1, ids, i + 1, fuel),
        }
    }
}

/// Runs block `b` in a scope of its own.
pub open spec fn exec_block(c: Ctx, s: State, b: usize, fuel: nat) -> (State, Result<(), Error>)
    decreases fuel, 4nat, 0nat,
{
    if b >= c.p.blocks@.len() {
        (s, Err(Error::InvalidProgram { at: Loc::Block(b) }))
    } else {
        let (s1, r) = exec_stmts(c, s, c.p.blocks@[b as int]@, 0, fuel);
        match r {
            Err(err) => (s1, Err(err)),
            Ok(()) => (close_scope(s1, s.env.len() as int), Ok(())),
        }
    }
}

/// `while cond { body }` with `budget` iterations left.
pub open spec fn run_while(c: Ctx, s: State, cond: usize, body: usize, fuel: nat, budget: nat) -> (
    State,
    Result<(), Error>,
)
    decreases fuel, 5nat, budget,
{
    let (s1, r) = eval_cond(c, s, cond, ADAPTIVE | BACKWARDS_BRANCHING, fuel);
    match r {
        Err(err) => (s1, Err(err)),
        Ok(false) => (s1, Ok(())),
        Ok(true) => if budget == 0 {
            (s1, Err(Error::UnboundedLoop { at: Loc::Expr(cond) }))
        } else {
            let (s2, r2) = exec_block(c, s1, body, fuel);
            match r2 {
                Err(err) => (s2, Err(err)),
                Ok(()) => run_while(c, s2, cond, body, fuel, (budget - 1) as nat),
            }
        },
    }
}

/// `repeat { body } until cond` with `budget` iterations left; after each
/// iteration the flag variable `var` records whether the loop goes on.
pub open spec fn run_repeat(
    c: Ctx,
    s: State,
    var: u64,
    body: usize,
    cond: usize,
    fuel: nat,
    budget: nat,
) -> (State, Result<(), Error>)
    decreases fuel, 5nat, budget,
{
    if budget == 0 {
        (s, Err(Error::UnboundedLoop { at: Loc::Expr(cond) }))
    } else {
        let (s1, r) = exec_block(c, s, body, fuel);
        match r {
            Err(err) => (s1, Err(err)),
            Ok(()) => {
                let (s2, rc) = eval_cond(c, s1, cond, ADAPTIVE | BACKWARDS_BRANCHING, fuel);
                match rc {
                    Err(err) => (s2, Err(err)),
                    Ok(done) => {
                        let s3 = emit_store(
                            s2,
                            Variable { id: var, ty: Ty::Boolean },
                            Operand::Literal(Literal::Bool(!done)),
                        );
                        if done {
                            (s3, Ok(()))
                        } else {
                            run_repeat(c, s3, var, body, cond, fuel, (budget - 1) as nat)
                        }
                    },
                }
            },
        }
    }
}

/// Runs `body` with `item` bound to `v`, then drops that binding.
pub open spec fn run_item(c: Ctx, s: State, item: u64, v: Value, body: usize, fuel: nat) -> (
    State,
    Result<(), Error>,
)
    decreases fuel, 4nat, 1nat,
{
    let (s1, r) = exec_block(c, bind(s, item, v, false), body, fuel);
    match r {
        Err(err) => (s1, Err(err)),
        Ok(()) => (State { env: truncate_env(s1.env, s.env.len() as int), ..s1 }, Ok(())),
    }
}

/// `for item in k..=z { body }` with `budget` iterations left.
pub open spec fn run_range(
    c: Ctx,
    s: State,
    item: u64,
    k: i64,
    z: i64,
    body: usize,
    at: usize,
    fuel: nat,
    budget: nat,
) -> (State, Result<(), Error>)
    decreases fuel, 5nat, budget,
{
    if k > z {
        (s, Ok(()))
    } else if budget == 0 {
        (s, Err(Error::UnboundedLoop { at: Loc::Stmt(at) }))
    } else {
        let (s1, r) = run_item(c, s, item, Value::Int(k), body, fuel);
        match r {
            Err(err) => (s1, Err(err)),
            Ok(()) => if k == z {
                (s1, Ok(()))
            } else {
                run_range(c, s1, item, (k + 1) as i64, z, body, at, fuel, (budget - 1) as nat)
            },
        }
    }
}

/// `for item in array { body }` from element `k` on, with `budget`
/// iterations left; the array is `len` pool items from `start`.
pub open spec fn run_array(
    c: Ctx,
    s: State,
    item: u64,
    start: usize,
    len: usize,
    k: usize,
    body: usize,
    at: usize,
    fuel: nat,
    budget: nat,
) -> (State, Result<(), Error>)
    decreases fuel, 5nat, budget,
{
    if k >= len {
        (s, Ok(()))
    } else if budget == 0 {
        (s, Err(Error::UnboundedLoop { at: Loc::Stmt(at) }))
    } else if start + k >= s.items.len() {
        (s, Err(Error::InvalidProgram { at: Loc::Stmt(at) }))
    } else {
        let (s1, r) = run_item(c, s, item, s.items[start + k], body, fuel);
        match r {
            Err(err) => (s1, Err(err)),
            Ok(()) => run_array(
                c,
                s1,
                item,
                start,
                len,
                (k + 1) as usize,
                body,
                at,
                fuel,
                (budget - 1) as nat,
            ),
        }
    }
}

/// How a returned value is recorded as output: the recording callable and
/// its arguments.
pub open spec fn record_of(v: Value) -> Option<(RecordKind, Seq<Operand>)> {
    let ptr = Operand::Literal(Literal::Pointer);
    match v {
        Value::Unit => Some((RecordKind::Tuple, seq![Operand::Literal(Literal::Integer(0)), ptr])),
        Value::Int(n) => Some((RecordKind::Int, seq![Operand::Literal(Literal::Integer(n)), ptr])),
        Value::Bool(b) => Some((RecordKind::Bool, seq![Operand::Literal(Literal::Bool(b)), ptr])),
        Value::Var(x) => match x.ty {
            Ty::Integer => Some((RecordKind::Int, seq![Operand::Variable(x), ptr])),
            Ty::Boolean => Some((RecordKind::Bool, seq![Operand::Variable(x), ptr])),
            Ty::Result => Some((RecordKind::Result, seq![Operand::Variable(x), ptr])),
            _ => None,
        },
        _ => None,
    }
}

/// The whole evaluation: the entry statements, the result expression in
/// their scope, and the recording of the result.
pub open spec fn run_entry(c: Ctx, entry: ProgramEntry) -> Result<State, Error> {
    if entry.block >= c.p.blocks@.len() {
        Err(Error::InvalidProgram { at: Loc::Block(entry.block) })
    } else {
        let fuel = DEPTH_CAP as nat;
        let (s1, r1) = exec_stmts(c, initial_state(), c.p.blocks@[entry.block as int]@, 0, fuel);
        match r1 {
            Err(err) => Err(err),
            Ok(()) => {
                let (s2, r2) = eval_expr(c, s1, entry.result, fuel);
                match r2 {
                    Err(err) => Err(err),
                    Ok(v) => match record_of(v) {
                        None => Err(Error::UnsupportedExpressionForm { at: entry.result }),
                        Some((kind, args)) => Ok(
                            emit_call(c.p, s2, CallableSource::Record(kind), args, None),
                        ),
                    },
                }
            },
        }
    }
}

/// The emitted part of a state is well formed: the table holds the entry
/// callable, every call names a callable of the table and reads operands in
/// range, every table entry for an operation names a declared operation,
/// and no two entries are the same.
pub open spec fn emitted_wf(p: SourceProgram, s: State) -> bool {
    &&& s.callables.len() > 0
    &&& forall|k: int|
        0 <= k < s.instrs.len() ==> match #[trigger] s.instrs[k] {
            Instruction::Call { callable, args_start, args_len, .. } => {
                &&& callable.0 < s.callables.len()
                &&& args_start + args_len <= s.operands.len()
            },
            _ => true,
        }
    &&& forall|j: int|
        0 <= j < s.callables.len() ==> match #[trigger] s.callables[j] {
            CallableSource::Op(o) => o < p.ops@.len(),
            _ => true,
        }
    &&& distinct_callables(p, s.callables)
    &&& no_forward_refs(s.instrs, s.operands)
}

/// Instruction `i` gives runtime variable `id` its value.
pub open spec fn defines(i: Instruction, id: u64) -> bool {
    match i {
        Instruction::Store(v, _) => v.id == id,
        Instruction::Call { result: Some(v), .. } => v.id == id,
        _ => false,
    }
}

/// One of the first `n` instructions defines variable `id`.
pub open spec fn defined_in(instrs: Seq<Instruction>, id: u64, n: int) -> bool {
    exists|k: int| 0 <= k < n && #[trigger] defines(instrs[k], id)
}

/// The operand reads no variable but one that the first `n` instructions
/// define.
pub open spec fn operand_defined(instrs: Seq<Instruction>, o: Operand, n: int) -> bool {
    match o {
        Operand::Variable(x) => defined_in(instrs, x.id, n),
        _ => true,
    }
}

/// Instruction `k` reads only variables that instructions before it define.
pub open spec fn reads_defined(instrs: Seq<Instruction>, operands: Seq<Operand>, k: int) -> bool {
    match instrs[k] {
        Instruction::Store(_, o) => operand_defined(instrs, o, k),
        Instruction::Call { args_start, args_len, .. } => forall|t: int|
            args_start <= t < args_start + args_len ==> operand_defined(
                instrs,
                #[trigger] operands[t],
                k,
            ),
    }
}

/// No instruction reads a variable before an instruction defines it.
pub open spec fn no_forward_refs(instrs: Seq<Instruction>, operands: Seq<Operand>) -> bool {
    forall|k: int| 0 <= k < instrs.len() ==> #[trigger] reads_defined(instrs, operands, k)
}

/// A value held at run time is in a variable that the first `n`
/// instructions define.
pub open spec fn value_defined(instrs: Seq<Instruction>, v: Value, n: int) -> bool {
    match v {
        Value::Var(x) => defined_in(instrs, x.id, n),
        _ => true,
    }
}

/// Every value bound or pooled is defined by the instructions emitted.
pub open spec fn values_defined(s: State) -> bool {
    &&& forall|i: int|
        0 <= i < s.env.len() ==> value_defined(s.instrs, #[trigger] s.env[i].value, s.instrs.len() as int)
    &&& forall|i: int|
        0 <= i < s.items.len() ==> value_defined(s.instrs, #[trigger] s.items[i], s.instrs.len() as int)
}

/// `a` is a prefix of `b`.
pub open spec fn extends<T>(a: Seq<T>, b: Seq<T>) -> bool {
    &&& a.len() <= b.len()
    &&& forall|j: int| 0 <= j < a.len() ==> #[trigger] b[j] == a[j]
}

/// What is defined by a prefix of the instructions stays defined.
pub proof fn lemma_defined_grows(a: Seq<Instruction>, b: Seq<Instruction>, id: u64, n: int, m: int)
    requires
        extends(a, b),
        n <= a.len(),
        n <= m,
        defined_in(a, id, n),
    ensures
        defined_in(b, id, m),
{
    let k = choose|k: int| 0 <= k < n && #[trigger] defines(a[k], id);
    assert(b[k] == a[k]);
    assert(defines(b[k], id));
}

/// No two entries of the table stand for the same physical operation.
pub open spec fn distinct_callables(p: SourceProgram, cs: Seq<CallableSource>) -> bool {
    forall|i: int, j: int|
        0 <= i < j < cs.len() ==> !same_source(p, #[trigger] cs[i], #[trigger] cs[j])
}

/// `find_callable` gives the first entry the same as `src`, or -1 when
/// there is none.
pub proof fn lemma_find_first(p: SourceProgram, cs: Seq<CallableSource>, src: CallableSource, i: int)
    requires
        0 <= i,
    ensures
        find_callable(p, cs, src, i) == -1 ==> forall|j: int|
            i <= j < cs.len() ==> !same_source(p, #[trigger] cs[j], src),
        find_callable(p, cs, src, i) != -1 ==> {
            let r = find_callable(p, cs, src, i);
            &&& i <= r < cs.len()
            &&& same_source(p, cs[r], src)
            &&& forall|j: int| i <= j < r ==> !same_source(p, #[trigger] cs[j], src)
        },
    decreases cs.len() - i,
{
    if i < cs.len() {
        lemma_find_first(p, cs, src, i + 1);
    }
}

/// Growing the instructions and operands keeps what an instruction reads
/// defined before it.
pub proof fn lemma_reads_extend(
    i1: Seq<Instruction>,
    o1: Seq<Operand>,
    i2: Seq<Instruction>,
    o2: Seq<Operand>,
    k: int,
)
    requires
        extends(i1, i2),
        extends(o1, o2),
        0 <= k < i1.len(),
        reads_defined(i1, o1, k),
        match i1[k] {
            Instruction::Call { args_start, args_len, .. } => args_start + args_len <= o1.len(),
            _ => true,
        },
    ensures
        reads_defined(i2, o2, k),
{
    assert(i2[k] == i1[k]);
    match i1[k] {
        Instruction::Store(_, o) => {
            if let Operand::Variable(x) = o {
                lemma_defined_grows(i1, i2, x.id, k, k);
            }
        },
        Instruction::Call { args_start, args_len, .. } => {
            assert forall|t: int| args_start <= t < args_start + args_len implies operand_defined(
                i2,
                #[trigger] o2[t],
                k,
            ) by {
                assert(o2[t] == o1[t]);
                assert(operand_defined(i1, o1[t], k));
                if let Operand::Variable(x) = o1[t] {
                    lemma_defined_grows(i1, i2, x.id, k, k);
                }
            }
        },
    }
}

} // verus!
