//! The executable specializer: it runs the classical part of a lowered
//! program at compile time and emits the rest as one straight-line block.
use vstd::prelude::*;
use crate::rir::{CallableId, Instruction, Literal, Operand, Ty, Variable};
use crate::semantics::{
    alloc_qubit, bind, binop, close_scope, defines, emit_call, emit_store, emitted_wf, eval_cond,
    eval_expr, eval_list, exec_block, exec_stmt, exec_stmts, extends, find_binding, find_callable,
    find_slot, gate, initial_state, lemma_defined_grows, lemma_find_first, lemma_reads_extend,
    materialize, operand_defined, operand_of, operands_of, owns_live, qubits_wf, reads_defined,
    release_from, resolve, restore, run_array, run_item, run_range, run_repeat, run_while,
    same_source, slot_var, store_literal, value_defined, values_defined, ADAPTIVE,
    BACKWARDS_BRANCHING, Binding, CallableSource, Ctx, Error, ITERATION_CAP, Loc, Slot, State,
    Value,
};
use crate::source::{BinOp, ComputeProps, Expr, SourceProgram, Stmt};

verus! {

pub(crate) struct Specializer<'a> {
    pub(crate) prog: &'a SourceProgram,
    pub(crate) props: &'a Vec<ComputeProps>,
    pub(crate) caps: u64,
    pub(crate) env: Vec<Binding>,
    pub(crate) slots: Vec<Slot>,
    pub(crate) items: Vec<Value>,
    pub(crate) qnext: u64,
    pub(crate) qfree: Vec<u64>,
    pub(crate) next_var: u64,
    pub(crate) instrs: Vec<Instruction>,
    pub(crate) operands: Vec<Operand>,
    pub(crate) callables: Vec<CallableSource>,
}

/// `(s, r)` with `acc` put in front of the values of an `Ok`.
pub open spec fn prepend_vals(acc: Seq<Value>, sr: (State, Result<Seq<Value>, Error>)) -> (
    State,
    Result<Seq<Value>, Error>,
) {
    match sr.1 {
        Ok(vs) => (sr.0, Ok(acc + vs)),
        Err(e) => (sr.0, Err(e)),
    }
}

/// A value defined by a prefix of the instructions stays defined.
proof fn lemma_value_grows(a: Seq<Instruction>, b: Seq<Instruction>, v: Value)
    requires
        extends(a, b),
        value_defined(a, v, a.len() as int),
    ensures
        value_defined(b, v, b.len() as int),
{
    if let Value::Var(x) = v {
        lemma_defined_grows(a, b, x.id, a.len() as int, b.len() as int);
    }
}

/// Values defined by a prefix of the instructions stay defined.
proof fn lemma_values_defined_grow(s0: State, s: State)
    requires
        values_defined(s0),
        s.env == s0.env,
        s.items == s0.items,
        extends(s0.instrs, s.instrs),
    ensures
        values_defined(s),
{
    assert forall|i: int| 0 <= i < s.env.len() implies value_defined(
        s.instrs,
        #[trigger] s.env[i].value,
        s.instrs.len() as int,
    ) by {
        if let Value::Var(x) = s.env[i].value {
            assert(value_defined(s0.instrs, s0.env[i].value, s0.instrs.len() as int));
            lemma_defined_grows(s0.instrs, s.instrs, x.id, s0.instrs.len() as int, s.instrs.len() as int);
        }
    }
    assert forall|i: int| 0 <= i < s.items.len() implies value_defined(
        s.instrs,
        #[trigger] s.items[i],
        s.instrs.len() as int,
    ) by {
        if let Value::Var(x) = s.items[i] {
            assert(value_defined(s0.instrs, s0.items[i], s0.instrs.len() as int));
            lemma_defined_grows(s0.instrs, s.instrs, x.id, s0.instrs.len() as int, s.instrs.len() as int);
        }
    }
}

impl<'a> Specializer<'a> {
    pub(crate) open spec fn ctx(&self) -> Ctx {
        Ctx { p: *self.prog, props: self.props@, caps: self.caps }
    }

    pub(crate) open spec fn state(&self) -> State {
        State {
            env: self.env@,
            slots: self.slots@,
            items: self.items@,
            qnext: self.qnext,
            qfree: self.qfree@,
            next_var: self.next_var,
            instrs: self.instrs@,
            operands: self.operands@,
            callables: self.callables@,
        }
    }

    pub(crate) open spec fn wf(&self) -> bool {
        &&& emitted_wf(*self.prog, self.state())
        &&& values_defined(self.state())
        &&& qubits_wf(self.state())
    }

    /// After a step from `pre`: same context, state `s`, still well formed.
    pub(crate) open spec fn follows(&self, pre: &Self, s: State) -> bool {
        &&& self.ctx() == pre.ctx()
        &&& self.state() == s
        &&& self.wf()
        &&& extends(pre.instrs@, self.instrs@)
    }

    pub(crate) fn new(prog: &'a SourceProgram, props: &'a Vec<ComputeProps>, caps: u64) -> (r: Self)
        ensures
            r.ctx() == (Ctx { p: *prog, props: props@, caps }),
            r.state() == initial_state(),
            r.wf(),
    {
        let mut callables: Vec<CallableSource> = Vec::new();
        callables.push(CallableSource::Entry);
        let r = Specializer {
            prog,
            props,
            caps,
            env: Vec::new(),
            slots: Vec::new(),
            items: Vec::new(),
            qnext: 0,
            qfree: Vec::new(),
            next_var: 0,
            instrs: Vec::new(),
            operands: Vec::new(),
            callables,
        };
        assert(r.state().callables =~= seq![CallableSource::Entry]);
        r
    }

    fn find_binding(&self, x: u64) -> (r: Option<usize>)
        ensures
            match r {
                Some(k) => k < self.env@.len() && find_binding(
                    self.env@,
                    x,
                    self.env@.len() as int,
                ) == k as int,
                None => find_binding(self.env@, x, self.env@.len() as int) == -1,
            },
    {
        let mut n = self.env.len();
        while n > 0
            invariant
                n <= self.env@.len(),
                find_binding(self.env@, x, self.env@.len() as int) == find_binding(
                    self.env@,
                    x,
                    n as int,
                ),
            decreases n,
        {
            if self.env[n - 1].local == x {
                return Some(n - 1);
            }
            n = n - 1;
        }
        None
    }

    fn find_slot(&self, x: u64) -> (r: Option<usize>)
        ensures
            match r {
                Some(k) => k < self.slots@.len() && find_slot(
                    self.slots@,
                    x,
                    self.slots@.len() as int,
                ) == k as int,
                None => find_slot(self.slots@, x, self.slots@.len() as int) == -1,
            },
    {
        let mut n = self.slots.len();
        while n > 0
            invariant
                n <= self.slots@.len(),
                find_slot(self.slots@, x, self.slots@.len() as int) == find_slot(
                    self.slots@,
                    x,
                    n as int,
                ),
            decreases n,
        {
            if self.slots[n - 1].local == x {
                return Some(n - 1);
            }
            n = n - 1;
        }
        None
    }

    fn slot_var(&mut self, x: u64) -> (r: Option<u64>)
        requires
            old(self).wf(),
        ensures
            match slot_var(old(self).state(), x) {
                None => r is None && final(self).follows(old(self), old(self).state()),
                Some((s1, v)) => r == Some(v) && final(self).follows(old(self), s1),
            },
    {
        match self.find_slot(x) {
            Some(k) => Some(self.slots[k].var),
            None => {
                if self.next_var == u64::MAX {
                    None
                } else {
                    let v = self.next_var;
                    self.slots.push(Slot { local: x, var: v });
                    self.next_var = v + 1;
                    Some(v)
                }
            },
        }
    }

    fn emit_store(&mut self, var: Variable, o: Operand)
        requires
            old(self).wf(),
            o matches Operand::Literal(_),
        ensures
            final(self).follows(old(self), emit_store(old(self).state(), var, o)),
    {
        self.instrs.push(Instruction::Store(var, o));
        proof {
            let s = self.state();
            let s0 = old(self).state();
            assert forall|k: int| 0 <= k < s.instrs.len() implies #[trigger] reads_defined(
                s.instrs,
                s.operands,
                k,
            ) by {
                if k < s0.instrs.len() {
                    assert(reads_defined(s0.instrs, s0.operands, k));
                    assert(emitted_wf(*self.prog, s0));
                    assert(match s0.instrs[k] {
                        Instruction::Call { callable, args_start, args_len, .. } => {
                            &&& callable.0 < s0.callables.len()
                            &&& args_start + args_len <= s0.operands.len()
                        },
                        _ => true,
                    });
                    lemma_reads_extend(s0.instrs, s0.operands, s.instrs, s.operands, k);
                }
            }
            lemma_values_defined_grow(s0, s);
            assert forall|k: int| 0 <= k < s.instrs.len() implies match #[trigger] s.instrs[k] {
                Instruction::Call { callable, args_start, args_len, .. } => {
                    &&& callable.0 < s.callables.len()
                    &&& args_start + args_len <= s.operands.len()
                },
                _ => true,
            } by {
                if k < s.instrs.len() - 1 {
                    assert(s.instrs[k] == old(self).state().instrs[k]);
                }
            }
        }
    }

    fn store_literal(v: Value) -> (r: Option<(Ty, Literal)>)
        ensures
            r == store_literal(v),
    {
        match v {
            Value::Int(n) => Some((Ty::Integer, Literal::Integer(n))),
            Value::Bool(b) => Some((Ty::Boolean, Literal::Bool(b))),
            Value::Double(d) => Some((Ty::Double, Literal::Double(d))),
            _ => None,
        }
    }

    fn materialize(&mut self, x: u64, v: Value, at: Loc) -> (r: Result<(), Error>)
        requires
            old(self).wf(),
        ensures
            final(self).follows(old(self), materialize(old(self).state(), x, v, at).0),
            r == materialize(old(self).state(), x, v, at).1,
    {
        match Self::store_literal(v) {
            None => Ok(()),
            Some((ty, lit)) => match self.slot_var(x) {
                None => Err(Error::InvalidProgram { at }),
                Some(var) => {
                    self.emit_store(Variable { id: var, ty }, Operand::Literal(lit));
                    Ok(())
                },
            },
        }
    }

    fn restore(&mut self, x: u64, v: Value)
        requires
            old(self).wf(),
        ensures
            final(self).follows(old(self), restore(old(self).state(), x, v)),
    {
        let k = self.find_slot(x);
        match Self::store_literal(v) {
            Some((ty, lit)) => match k {
                Some(k) => {
                    let var = self.slots[k].var;
                    self.emit_store(Variable { id: var, ty }, Operand::Literal(lit));
                },
                None => {},
            },
            None => {},
        }
    }

    fn alloc_qubit(&mut self) -> (r: Option<u64>)
        requires
            old(self).wf(),
        ensures
            match alloc_qubit(old(self).state()) {
                None => r is None && final(self).follows(old(self), old(self).state()),
                Some((s1, q)) => r == Some(q) && final(self).follows(old(self), s1),
            },
            r matches Some(q) ==> forall|i: int|
                0 <= i < final(self).env@.len() && (#[trigger] final(self).env@[i]).owned
                    ==> final(self).env@[i].value != Value::Qubit(q),
            r matches Some(q) ==> owns_live(final(self).state(), Binding { local: 0, value: Value::Qubit(q), owned: true }),
    {
        let ghost s0 = self.state();
        proof {
            if s0.qfree.len() > 0 {
                crate::laws::lemma_alloc_live(s0);
            }
        }
        if self.qfree.len() > 0 {
            let q = self.qfree.pop().unwrap();
            Some(q)
        } else if self.qnext == u64::MAX {
            None
        } else {
            let q = self.qnext;
            self.qnext = q + 1;
            Some(q)
        }
    }

    fn close_scope(&mut self, mark: usize)
        requires
            old(self).wf(),
        ensures
            final(self).follows(old(self), close_scope(old(self).state(), mark as int)),
    {
        let ghost s0 = self.state();
        let mut n = self.env.len();
        while n > mark
            invariant
                n <= self.env@.len(),
                n == self.env@.len() || mark <= n,
                self.env@ == s0.env,
                s0 == old(self).state(),
                old(self).wf(),
                self.ctx() == old(self).ctx(),
                self.state() == (State { qfree: self.qfree@, ..s0 }),
                self.qfree@.no_duplicates(),
                forall|k: int| 0 <= k < self.qfree@.len() ==> #[trigger] self.qfree@[k] < s0.qnext,
                forall|k: int|
                    0 <= k < n && (#[trigger] s0.env[k]).owned ==> owns_live(
                        self.state(),
                        s0.env[k],
                    ),
                release_from(s0.qfree, s0.env, mark as int, s0.env.len() as int) == release_from(
                    self.qfree@,
                    s0.env,
                    mark as int,
                    n as int,
                ),
            decreases n,
        {
            let ghost cur = self.qfree@;
            let b = self.env[n - 1];
            match b.value {
                Value::Qubit(q) => {
                    if b.owned {
                        self.qfree.push(q);
                        proof {
                            assert(owns_live(State { qfree: cur, ..s0 }, s0.env[n - 1]));
                            assert forall|x: u64| #[trigger] self.qfree@.contains(x) == (cur.contains(x)
                                || x == q) by {
                                if self.qfree@.contains(x) {
                                    let t = choose|t: int| 0 <= t < self.qfree@.len() && self.qfree@[t] == x;
                                    if t < cur.len() {
                                        assert(cur[t] == x);
                                    }
                                }
                                if cur.contains(x) {
                                    let t = choose|t: int| 0 <= t < cur.len() && cur[t] == x;
                                    assert(self.qfree@[t] == x);
                                }
                                if x == q {
                                    assert(self.qfree@[cur.len() as int] == x);
                                }
                            }
                            assert forall|a: int, c: int|
                                0 <= a < self.qfree@.len() && 0 <= c < self.qfree@.len() && a != c
                                    implies self.qfree@[a] != self.qfree@[c] by {
                                if a < cur.len() && c < cur.len() {
                                } else if a < cur.len() {
                                    assert(cur.contains(cur[a]));
                                } else if c < cur.len() {
                                    assert(cur.contains(cur[c]));
                                }
                            }
                            assert forall|k: int|
                                0 <= k < n - 1 && (#[trigger] s0.env[k]).owned implies owns_live(
                                self.state(),
                                s0.env[k],
                            ) by {
                                assert(s0.env[k].value != s0.env[n - 1].value);
                            }
                        }
                    }
                },
                _ => {},
            }
            n = n - 1;
        }
        self.env.truncate(mark);
        proof {
            let s = self.state();
            assert forall|i: int| 0 <= i < s.env.len() implies value_defined(
                s.instrs,
                #[trigger] s.env[i].value,
                s.instrs.len() as int,
            ) by {
                assert(s.env[i] == s0.env[i]);
            }
            assert forall|k: int| 0 <= k < s.env.len() && (#[trigger] s.env[k]).owned implies owns_live(
                s,
                s.env[k],
            ) by {
                assert(s.env[k] == s0.env[k]);
            }
            assert forall|a: int, c: int|
                0 <= a < c < s.env.len() && (#[trigger] s.env[a]).owned && (#[trigger] s.env[c]).owned
                    implies s.env[a].value != s.env[c].value by {
                assert(s.env[a] == s0.env[a] && s.env[c] == s0.env[c]);
            }
            assert forall|i: int| 0 <= i < s.items.len() implies value_defined(
                s.instrs,
                #[trigger] s.items[i],
                s.instrs.len() as int,
            ) by {
                assert(s.items[i] == s0.items[i]);
            }
        }
    }

    fn same_source(&self, a: CallableSource, b: CallableSource) -> (r: bool)
        requires
            a matches CallableSource::Op(j) ==> j < self.prog.ops@.len(),
            b matches CallableSource::Op(k) ==> k < self.prog.ops@.len(),
        ensures
            r == same_source(*self.prog, a, b),
    {
        match (a, b) {
            (CallableSource::Entry, CallableSource::Entry) => true,
            (CallableSource::Record(x), CallableSource::Record(y)) => x == y,
            (CallableSource::Op(j), CallableSource::Op(k)) => {
                let oj = &self.prog.ops[j];
                let ok = &self.prog.ops[k];
                oj.name == ok.name && oj.call_type == ok.call_type && same_tys(
                    &oj.input_type,
                    &ok.input_type,
                ) && same_output(oj.output_type, ok.output_type)
            },
            _ => false,
        }
    }

    fn resolve(&mut self, src: CallableSource) -> (r: usize)
        requires
            old(self).wf(),
            src matches CallableSource::Op(k) ==> k < old(self).prog.ops@.len(),
        ensures
            resolve(*old(self).prog, old(self).callables@, src) == (
            final(self).callables@,
            r as int,
        ),
            final(self).follows(
                old(self),
                State { callables: final(self).callables@, ..old(self).state() },
            ),
            r < final(self).callables@.len(),
    {
        let mut i: usize = 0;
        while i < self.callables.len()
            invariant
                self.wf(),
                self.callables@ == old(self).callables@,
                self.state() == old(self).state(),
                self.ctx() == old(self).ctx(),
                i <= self.callables@.len(),
                src matches CallableSource::Op(k) ==> k < self.prog.ops@.len(),
                find_callable(*self.prog, self.callables@, src, 0) == find_callable(
                    *self.prog,
                    self.callables@,
                    src,
                    i as int,
                ),
            decreases self.callables@.len() - i,
        {
            let c = self.callables[i];
            assert(c matches CallableSource::Op(k) ==> k < self.prog.ops@.len());
            if self.same_source(c, src) {
                return i;
            }
            i = i + 1;
        }
        let id = self.callables.len();
        proof {
            lemma_find_first(*self.prog, self.callables@, src, 0);
        }
        self.callables.push(src);
        proof {
            let s = self.state();
            let cs0 = old(self).callables@;
            assert forall|a: int, b: int| 0 <= a < b < s.callables.len() implies !same_source(
                *self.prog,
                #[trigger] s.callables[a],
                #[trigger] s.callables[b],
            ) by {
                if b == cs0.len() {
                    assert(s.callables[a] == cs0[a]);
                } else {
                    assert(s.callables[a] == cs0[a] && s.callables[b] == cs0[b]);
                }
            }
            assert forall|k: int| 0 <= k < s.instrs.len() implies match #[trigger] s.instrs[k] {
                Instruction::Call { callable, args_start, args_len, .. } => {
                    &&& callable.0 < s.callables.len()
                    &&& args_start + args_len <= s.operands.len()
                },
                _ => true,
            } by {
                assert(s.instrs[k] == old(self).state().instrs[k]);
            }
            assert forall|j: int| 0 <= j < s.callables.len() implies match #[trigger] s.callables[j] {
                CallableSource::Op(o) => o < self.prog.ops@.len(),
                _ => true,
            } by {
                if j < s.callables.len() - 1 {
                    assert(s.callables[j] == old(self).state().callables[j]);
                }
            }
        }
        id
    }

    pub(crate) fn emit_call(&mut self, src: CallableSource, args: Vec<Operand>, result: Option<Variable>)
        requires
            old(self).wf(),
            forall|t: int|
                0 <= t < args@.len() ==> operand_defined(
                    old(self).instrs@,
                    #[trigger] args@[t],
                    old(self).instrs@.len() as int,
                ),
            src matches CallableSource::Op(k) ==> k < old(self).prog.ops@.len(),
        ensures
            final(self).follows(
                old(self),
                emit_call(*old(self).prog, old(self).state(), src, args@, result),
            ),
    {
        let ghost a0 = args@;
        let mut args = args;
        let id = self.resolve(src);
        let start = self.operands.len();
        let len = args.len();
        let ghost pre = self.state();
        self.operands.append(&mut args);
        self.instrs.push(
            Instruction::Call { callable: CallableId(id), args_start: start, args_len: len, result },
        );
        proof {
            let s = self.state();
            assert forall|k: int| 0 <= k < s.instrs.len() implies match #[trigger] s.instrs[k] {
                Instruction::Call { callable, args_start, args_len, .. } => {
                    &&& callable.0 < s.callables.len()
                    &&& args_start + args_len <= s.operands.len()
                },
                _ => true,
            } by {
                if k < s.instrs.len() - 1 {
                    assert(s.instrs[k] == pre.instrs[k]);
                }
            }
            assert forall|k: int| 0 <= k < s.instrs.len() implies #[trigger] reads_defined(
                s.instrs,
                s.operands,
                k,
            ) by {
                if k < pre.instrs.len() {
                    assert(reads_defined(pre.instrs, pre.operands, k));
                    assert(emitted_wf(*self.prog, pre));
                    assert(match pre.instrs[k] {
                        Instruction::Call { callable, args_start, args_len, .. } => {
                            &&& callable.0 < pre.callables.len()
                            &&& args_start + args_len <= pre.operands.len()
                        },
                        _ => true,
                    });
                    lemma_reads_extend(pre.instrs, pre.operands, s.instrs, s.operands, k);
                } else {
                    assert forall|t: int| start <= t < start + len implies operand_defined(
                        s.instrs,
                        #[trigger] s.operands[t],
                        k,
                    ) by {
                        assert(s.operands[t] == a0[t - start]);
                        assert(operand_defined(pre.instrs, a0[t - start], pre.instrs.len() as int));
                        if let Operand::Variable(x) = a0[t - start] {
                            lemma_defined_grows(pre.instrs, s.instrs, x.id, k, k);
                        }
                    }
                }
            }
            lemma_values_defined_grow(pre, s);
        }
    }
}

fn same_tys(a: &Vec<Ty>, b: &Vec<Ty>) -> (r: bool)
    ensures
        r == (a@ == b@),
{
    if a.len() != b.len() {
        return false;
    }
    let mut i: usize = 0;
    while i < a.len()
        invariant
            i <= a@.len(),
            a@.len() == b@.len(),
            forall|j: int| 0 <= j < i ==> a@[j] == b@[j],
        decreases a@.len() - i,
    {
        if a[i] != b[i] {
            return false;
        }
        i = i + 1;
    }
    assert(a@ =~= b@);
    true
}

fn same_output(a: Option<Ty>, b: Option<Ty>) -> (r: bool)
    ensures
        r == (a == b),
{
    match (a, b) {
        (Some(x), Some(y)) => x == y,
        (None, None) => true,
        _ => false,
    }
}

fn binop_exec(op: BinOp, a: Value, b: Value, at: usize) -> (r: Result<Value, Error>)
    ensures
        r == binop(op, a, b, at),
        !(r matches Ok(Value::Var(_))),
{
    match (a, b) {
        (Value::Int(x), Value::Int(y)) => match op {
            BinOp::Add => match x.checked_add(y) {
                Some(z) => Ok(Value::Int(z)),
                None => Err(Error::IntegerOverflow { at }),
            },
            BinOp::Sub => match x.checked_sub(y) {
                Some(z) => Ok(Value::Int(z)),
                None => Err(Error::IntegerOverflow { at }),
            },
            BinOp::Mul => match x.checked_mul(y) {
                Some(z) => Ok(Value::Int(z)),
                None => Err(Error::IntegerOverflow { at }),
            },
            BinOp::Eq => Ok(Value::Bool(x == y)),
            BinOp::Ne => Ok(Value::Bool(x != y)),
            BinOp::Lt => Ok(Value::Bool(x < y)),
            BinOp::Le => Ok(Value::Bool(x <= y)),
            BinOp::Gt => Ok(Value::Bool(x > y)),
            BinOp::Ge => Ok(Value::Bool(x >= y)),
            _ => Err(Error::UnsupportedExpressionForm { at }),
        },
        (Value::Bool(x), Value::Bool(y)) => match op {
            BinOp::Eq => Ok(Value::Bool(x == y)),
            BinOp::Ne => Ok(Value::Bool(x != y)),
            BinOp::And => Ok(Value::Bool(x && y)),
            BinOp::Or => Ok(Value::Bool(x || y)),
            _ => Err(Error::UnsupportedExpressionForm { at }),
        },
        _ => Err(Error::UnsupportedExpressionForm { at }),
    }
}

fn operand_of_exec(v: Value) -> (r: Option<Operand>)
    ensures
        r == operand_of(v),
{
    match v {
        Value::Int(n) => Some(Operand::Literal(Literal::Integer(n))),
        Value::Bool(b) => Some(Operand::Literal(Literal::Bool(b))),
        Value::Double(d) => Some(Operand::Literal(Literal::Double(d))),
        Value::Qubit(q) => Some(Operand::Literal(Literal::Qubit(q))),
        Value::Var(x) => Some(Operand::Variable(x)),
        _ => None,
    }
}

fn operands_of_exec(vs: &Vec<Value>) -> (r: Option<Vec<Operand>>)
    ensures
        match operands_of(vs@) {
            None => r is None,
            Some(os) => r is Some && r->Some_0@ == os,
        },
{
    let mut out: Vec<Operand> = Vec::new();
    let mut i: usize = 0;
    while i < vs.len()
        invariant
            i <= vs@.len(),
            out@.len() == i,
            forall|j: int| 0 <= j < i ==> (#[trigger] operand_of(vs@[j])) is Some,
            forall|j: int| 0 <= j < i ==> out@[j] == operand_of(vs@[j])->Some_0,
        decreases vs@.len() - i,
    {
        match operand_of_exec(vs[i]) {
            None => {
                return None;
            },
            Some(o) => {
                out.push(o);
            },
        }
        i = i + 1;
    }
    assert(out@ =~= vs@.map_values(|v: Value| operand_of(v)->Some_0));
    Some(out)
}

impl<'a> Specializer<'a> {
    fn gate(&self, e: usize, need: u64) -> (r: Result<(), Error>)
        ensures
            r == gate(self.ctx(), e, need),
    {
        let pr = if e < self.props.len() {
            self.props[e]
        } else {
            ComputeProps { requires_runtime_value: true, required_capabilities: 0 }
        };
        if !pr.requires_runtime_value {
            Ok(())
        } else {
            let missing = (pr.required_capabilities | need) & !self.caps;
            if missing != 0 {
                Err(Error::UnsupportedRuntimeCapability { at: e, missing })
            } else {
                Err(Error::UnsupportedDynamicControlFlow { at: e })
            }
        }
    }

    pub(crate) fn eval_expr(&mut self, e: usize, fuel: u64) -> (r: Result<Value, Error>)
        requires
            old(self).wf(),
        ensures
            final(self).follows(
                old(self),
                eval_expr(old(self).ctx(), old(self).state(), e, fuel as nat).0,
            ),
            r == eval_expr(old(self).ctx(), old(self).state(), e, fuel as nat).1,
            match r {
                Ok(v) => value_defined(final(self).instrs@, v, final(self).instrs@.len() as int),
                Err(_) => true,
            },
        decreases fuel, 0nat, 0nat,
    {
        if fuel == 0 {
            return Err(Error::UnboundedLoop { at: Loc::Expr(e) });
        }
        let p = self.prog;
        if e >= p.exprs.len() {
            return Err(Error::InvalidProgram { at: Loc::Expr(e) });
        }
        let f = fuel - 1;
        match p.exprs[e] {
            Expr::Unit => Ok(Value::Unit),
            Expr::Int(n) => Ok(Value::Int(n)),
            Expr::Bool(b) => Ok(Value::Bool(b)),
            Expr::Double(d) => Ok(Value::Double(d)),
            Expr::Local(x) => match self.find_binding(x) {
                Some(k) => {
                    proof {
                        assert(value_defined(
                            self.instrs@,
                            self.state().env[k as int].value,
                            self.instrs@.len() as int,
                        ));
                    }
                    Ok(self.env[k].value)
                },
                None => Err(Error::InvalidProgram { at: Loc::Expr(e) }),
            },
            Expr::Not(a) => match self.eval_expr(a, f) {
                Err(err) => Err(err),
                Ok(Value::Bool(b)) => Ok(Value::Bool(!b)),
                Ok(_) => Err(Error::UnsupportedExpressionForm { at: e }),
            },
            Expr::Binary(op, a, b) => match self.eval_expr(a, f) {
                Err(err) => Err(err),
                Ok(va) => {
                    if (op == BinOp::And && va == Value::Bool(false)) || (op == BinOp::Or && va
                        == Value::Bool(true)) {
                        Ok(va)
                    } else {
                        match self.eval_expr(b, f) {
                            Err(err) => Err(err),
                            Ok(vb) => binop_exec(op, va, vb, e),
                        }
                    }
                },
            },
            Expr::Array(l) => {
                if l >= p.lists.len() {
                    return Err(Error::InvalidProgram { at: Loc::Expr(e) });
                }
                match self.eval_list(&p.lists[l], f) {
                    Err(err) => Err(err),
                    Ok(vs) => {
                        let mut vs = vs;
                        let start = self.items.len();
                        let len = vs.len();
                        self.items.append(&mut vs);
                        Ok(Value::Array { start, len })
                    },
                }
            },
            Expr::Index(a, i) => match self.eval_expr(a, f) {
                Err(err) => Err(err),
                Ok(va) => match self.eval_expr(i, f) {
                    Err(err) => Err(err),
                    Ok(vi) => match (va, vi) {
                        (Value::Array { start, len }, Value::Int(k)) => {
                            if k >= 0 && (k as u128) < (len as u128) && (start as u128) + (k as u128)
                                < (self.items.len() as u128) {
                                proof {
                                    assert(value_defined(
                                        self.instrs@,
                                        self.state().items[start + k],
                                        self.instrs@.len() as int,
                                    ));
                                }
                                Ok(self.items[start + k as usize])
                            } else {
                                Err(Error::IndexOutOfRange { at: e })
                            }
                        },
                        _ => Err(Error::UnsupportedExpressionForm { at: e }),
                    },
                },
            },
            Expr::Call(op, l) => {
                if op >= p.ops.len() || l >= p.lists.len() {
                    return Err(Error::InvalidProgram { at: Loc::Expr(e) });
                }
                match self.eval_list(&p.lists[l], f) {
                    Err(err) => Err(err),
                    Ok(vs) => match operands_of_exec(&vs) {
                        None => Err(Error::UnsupportedExpressionForm { at: e }),
                        Some(args) => match p.ops[op].output_type {
                            None => {
                                self.emit_call(CallableSource::Op(op), args, None);
                                Ok(Value::Unit)
                            },
                            Some(ty) => {
                                if self.next_var == u64::MAX {
                                    Err(Error::InvalidProgram { at: Loc::Expr(e) })
                                } else {
                                    let x = Variable { id: self.next_var, ty };
                                    self.next_var = self.next_var + 1;
                                    self.emit_call(CallableSource::Op(op), args, Some(x));
                                    proof {
                                        let last = self.instrs@.len() - 1;
                                        assert(defines(self.instrs@[last], x.id));
                                    }
                                    Ok(Value::Var(x))
                                }
                            },
                        },
                    },
                }
            },
        }
    }

    fn eval_list(&mut self, ids: &Vec<usize>, fuel: u64) -> (r: Result<Vec<Value>, Error>)
        requires
            old(self).wf(),
        ensures
            final(self).follows(
                old(self),
                eval_list(old(self).ctx(), old(self).state(), ids@, 0, fuel as nat).0,
            ),
            match eval_list(old(self).ctx(), old(self).state(), ids@, 0, fuel as nat).1 {
                Ok(vs) => r is Ok && r->Ok_0@ == vs,
                Err(err) => r == Err::<Vec<Value>, Error>(err),
            },
            match r {
                Ok(vs) => forall|j: int|
                    0 <= j < vs@.len() ==> value_defined(
                        final(self).instrs@,
                        #[trigger] vs@[j],
                        final(self).instrs@.len() as int,
                    ),
                Err(_) => true,
            },
        decreases fuel, 1nat, 0nat,
    {
        let ghost c = self.ctx();
        let ghost s0 = self.state();
        let mut vals: Vec<Value> = Vec::new();
        let mut i: usize = 0;
        while i < ids.len()
            invariant
                i <= ids@.len(),
                self.follows(old(self), self.state()),
                c == self.ctx(),
                s0 == old(self).state(),
                eval_list(c, s0, ids@, 0, fuel as nat) == prepend_vals(
                    vals@,
                    eval_list(c, self.state(), ids@, i as int, fuel as nat),
                ),
                forall|j: int|
                    0 <= j < vals@.len() ==> value_defined(
                        self.instrs@,
                        #[trigger] vals@[j],
                        self.instrs@.len() as int,
                    ),
            decreases ids@.len() - i,
        {
            let ghost cur = self.state();
            match self.eval_expr(ids[i], fuel) {
                Err(err) => {
                    return Err(err);
                },
                Ok(v) => {
                    proof {
                        assert forall|j: int| 0 <= j < vals@.len() implies value_defined(
                            self.instrs@,
                            #[trigger] vals@[j],
                            self.instrs@.len() as int,
                        ) by {
                            lemma_value_grows(cur.instrs, self.instrs@, vals@[j]);
                        }
                        let rest = eval_list(c, self.state(), ids@, i + 1, fuel as nat);
                        match rest.1 {
                            Ok(vs) => {
                                assert(vals@ + (seq![v] + vs) =~= vals@.push(v) + vs);
                            },
                            Err(_) => {},
                        }
                    }
                    vals.push(v);
                },
            }
            i = i + 1;
        }
        assert(vals@ + Seq::<Value>::empty() =~= vals@);
        Ok(vals)
    }

    fn eval_cond(&mut self, e: usize, need: u64, fuel: u64) -> (r: Result<bool, Error>)
        requires
            old(self).wf(),
        ensures
            final(self).follows(
                old(self),
                eval_cond(old(self).ctx(), old(self).state(), e, need, fuel as nat).0,
            ),
            r == eval_cond(old(self).ctx(), old(self).state(), e, need, fuel as nat).1,
        decreases fuel, 0nat, 1nat,
    {
        match self.gate(e, need) {
            Err(err) => Err(err),
            Ok(()) => match self.eval_expr(e, fuel) {
                Err(err) => Err(err),
                Ok(Value::Bool(b)) => Ok(b),
                Ok(_) => Err(Error::InvalidProgram { at: Loc::Expr(e) }),
            },
        }
    }
}

impl<'a> Specializer<'a> {
    fn set_value(&mut self, k: usize, v: Value)
        requires
            old(self).wf(),
            k < old(self).env@.len(),
            !old(self).env@[k as int].owned,
            value_defined(old(self).instrs@, v, old(self).instrs@.len() as int),
        ensures
            final(self).follows(
                old(self),
                State {
                    env: old(self).env@.update(k as int, Binding { value: v, ..old(self).env@[k as int] }),
                    ..old(self).state()
                },
            ),
    {
        let b = self.env[k];
        self.env.set(k, Binding { value: v, ..b });
    }

    fn bind(&mut self, x: u64, v: Value, owned: bool)
        requires
            old(self).wf(),
            value_defined(old(self).instrs@, v, old(self).instrs@.len() as int),
            owned ==> owns_live(old(self).state(), Binding { local: x, value: v, owned }),
            owned ==> forall|i: int|
                0 <= i < old(self).env@.len() && (#[trigger] old(self).env@[i]).owned
                    ==> old(self).env@[i].value != v,
        ensures
            final(self).follows(old(self), bind(old(self).state(), x, v, owned)),
    {
        self.env.push(Binding { local: x, value: v, owned });
    }

    fn exec_stmt(&mut self, i: usize, fuel: u64) -> (r: Result<(), Error>)
        requires
            old(self).wf(),
        ensures
            final(self).follows(
                old(self),
                exec_stmt(old(self).ctx(), old(self).state(), i, fuel as nat).0,
            ),
            r == exec_stmt(old(self).ctx(), old(self).state(), i, fuel as nat).1,
        decreases fuel, 2nat, 0nat,
    {
        if fuel == 0 {
            return Err(Error::UnboundedLoop { at: Loc::Stmt(i) });
        }
        let p = self.prog;
        if i >= p.stmts.len() {
            return Err(Error::InvalidProgram { at: Loc::Stmt(i) });
        }
        let f = fuel - 1;
        match p.stmts[i] {
            Stmt::Let(x, e) => match self.eval_expr(e, f) {
                Err(err) => Err(err),
                Ok(v) => {
                    self.bind(x, v, false);
                    Ok(())
                },
            },
            Stmt::Mutable(x, e) => match self.eval_expr(e, f) {
                Err(err) => Err(err),
                Ok(v) => {
                    let ghost mid = self.instrs@;
                    match self.materialize(x, v, Loc::Stmt(i)) {
                        Err(err) => Err(err),
                        Ok(()) => {
                            proof {
                                lemma_value_grows(mid, self.instrs@, v);
                            }
                            self.bind(x, v, false);
                            Ok(())
                        },
                    }
                },
            },
            Stmt::Assign(x, e) => match self.eval_expr(e, f) {
                Err(err) => Err(err),
                Ok(v) => match self.find_binding(x) {
                    None => Err(Error::InvalidProgram { at: Loc::Stmt(i) }),
                    Some(k) => {
                        if self.env[k].owned {
                            return Err(Error::InvalidProgram { at: Loc::Stmt(i) });
                        }
                        self.set_value(k, v);
                        self.restore(x, v);
                        Ok(())
                    },
                },
            },
            Stmt::AssignOp(op, x, e) => match self.eval_expr(e, f) {
                Err(err) => Err(err),
                Ok(vb) => match self.find_binding(x) {
                    None => Err(Error::InvalidProgram { at: Loc::Stmt(i) }),
                    Some(k) => {
                        let b = self.env[k];
                        if b.owned {
                            return Err(Error::InvalidProgram { at: Loc::Stmt(i) });
                        }
                        match binop_exec(op, b.value, vb, e) {
                            Err(err) => Err(err),
                            Ok(v) => {
                                self.set_value(k, v);
                                Ok(())
                            },
                        }
                    },
                },
            },
            Stmt::Expr(e) => match self.eval_expr(e, f) {
                Err(err) => Err(err),
                Ok(_) => Ok(()),
            },
            Stmt::Use(x) => match self.alloc_qubit() {
                None => Err(Error::InvalidProgram { at: Loc::Stmt(i) }),
                Some(q) => {
                    self.bind(x, Value::Qubit(q), true);
                    Ok(())
                },
            },
            Stmt::If(cond, t, els) => match self.eval_cond(cond, ADAPTIVE, f) {
                Err(err) => Err(err),
                Ok(true) => self.exec_block(t, f),
                Ok(false) => match els {
                    Some(b) => self.exec_block(b, f),
                    None => Ok(()),
                },
            },
            Stmt::While { cond, body } => self.run_while(cond, body, f),
            Stmt::RepeatUntil { flag, body, cond } => match self.slot_var(flag) {
                None => Err(Error::InvalidProgram { at: Loc::Stmt(i) }),
                Some(var) => {
                    self.emit_store(
                        Variable { id: var, ty: Ty::Boolean },
                        Operand::Literal(Literal::Bool(true)),
                    );
                    self.run_repeat(var, body, cond, f)
                },
            },
            Stmt::ForRange { item, counter, start, end, body } => match self.eval_expr(start, f) {
                Err(err) => Err(err),
                Ok(va) => match self.eval_expr(end, f) {
                    Err(err) => Err(err),
                    Ok(vz) => match (va, vz) {
                        (Value::Int(a), Value::Int(z)) => match self.materialize(
                            counter,
                            va,
                            Loc::Stmt(i),
                        ) {
                            Err(err) => Err(err),
                            Ok(()) => self.run_range(item, a, z, body, i, f),
                        },
                        _ => Err(Error::UnsupportedExpressionForm { at: start }),
                    },
                },
            },
            Stmt::ForArray { item, counter, array, body } => match self.eval_expr(array, f) {
                Err(err) => Err(err),
                Ok(Value::Array { start, len }) => match self.materialize(
                    counter,
                    Value::Int(0),
                    Loc::Stmt(i),
                ) {
                    Err(err) => Err(err),
                    Ok(()) => self.run_array(item, start, len, body, i, f),
                },
                Ok(_) => Err(Error::UnsupportedExpressionForm { at: array }),
            },
        }
    }

    pub(crate) fn exec_stmts(&mut self, ids: &Vec<usize>, fuel: u64) -> (r: Result<(), Error>)
        requires
            old(self).wf(),
        ensures
            final(self).follows(
                old(self),
                exec_stmts(old(self).ctx(), old(self).state(), ids@, 0, fuel as nat).0,
            ),
            r == exec_stmts(old(self).ctx(), old(self).state(), ids@, 0, fuel as nat).1,
        decreases fuel, 3nat, 0nat,
    {
        let ghost c = self.ctx();
        let ghost s0 = self.state();
        let mut i: usize = 0;
        while i < ids.len()
            invariant
                i <= ids@.len(),
                self.follows(old(self), self.state()),
                c == self.ctx(),
                s0 == old(self).state(),
                exec_stmts(c, s0, ids@, 0, fuel as nat) == exec_stmts(
                    c,
                    self.state(),
                    ids@,
                    i as int,
                    fuel as nat,
                ),
            decreases ids@.len() - i,
        {
            match self.exec_stmt(ids[i], fuel) {
                Err(err) => {
                    return Err(err);
                },
                Ok(()) => {},
            }
            i = i + 1;
        }
        Ok(())
    }

    fn exec_block(&mut self, b: usize, fuel: u64) -> (r: Result<(), Error>)
        requires
            old(self).wf(),
        ensures
            final(self).follows(
                old(self),
                exec_block(old(self).ctx(), old(self).state(), b, fuel as nat).0,
            ),
            r == exec_block(old(self).ctx(), old(self).state(), b, fuel as nat).1,
        decreases fuel, 4nat, 0nat,
    {
        let p = self.prog;
        if b >= p.blocks.len() {
            return Err(Error::InvalidProgram { at: Loc::Block(b) });
        }
        let mark = self.env.len();
        match self.exec_stmts(&p.blocks[b], fuel) {
            Err(err) => Err(err),
            Ok(()) => {
                self.close_scope(mark);
                Ok(())
            },
        }
    }

    fn run_item(&mut self, item: u64, v: Value, body: usize, fuel: u64) -> (r: Result<(), Error>)
        requires
            old(self).wf(),
            value_defined(old(self).instrs@, v, old(self).instrs@.len() as int),
        ensures
            final(self).follows(
                old(self),
                run_item(old(self).ctx(), old(self).state(), item, v, body, fuel as nat).0,
            ),
            r == run_item(old(self).ctx(), old(self).state(), item, v, body, fuel as nat).1,
        decreases fuel, 4nat, 1nat,
    {
        let mark = self.env.len();
        self.bind(item, v, false);
        match self.exec_block(body, fuel) {
            Err(err) => Err(err),
            Ok(()) => {
                self.env.truncate(mark);
                Ok(())
            },
        }
    }

    fn run_while(&mut self, cond: usize, body: usize, fuel: u64) -> (r: Result<(), Error>)
        requires
            old(self).wf(),
        ensures
            final(self).follows(
                old(self),
                run_while(
                    old(self).ctx(),
                    old(self).state(),
                    cond,
                    body,
                    fuel as nat,
                    ITERATION_CAP as nat,
                ).0,
            ),
            r == run_while(
                old(self).ctx(),
                old(self).state(),
                cond,
                body,
                fuel as nat,
                ITERATION_CAP as nat,
            ).1,
        decreases fuel, 5nat, 0nat,
    {
        let ghost c = self.ctx();
        let ghost s0 = self.state();
        let mut budget: u64 = ITERATION_CAP;
        loop
            invariant
                self.follows(old(self), self.state()),
                c == self.ctx(),
                s0 == old(self).state(),
                run_while(c, s0, cond, body, fuel as nat, ITERATION_CAP as nat) == run_while(
                    c,
                    self.state(),
                    cond,
                    body,
                    fuel as nat,
                    budget as nat,
                ),
            decreases budget,
        {
            match self.eval_cond(cond, ADAPTIVE | BACKWARDS_BRANCHING, fuel) {
                Err(err) => {
                    return Err(err);
                },
                Ok(false) => {
                    return Ok(());
                },
                Ok(true) => {
                    if budget == 0 {
                        return Err(Error::UnboundedLoop { at: Loc::Expr(cond) });
                    }
                    match self.exec_block(body, fuel) {
                        Err(err) => {
                            return Err(err);
                        },
                        Ok(()) => {},
                    }
                    budget = budget - 1;
                },
            }
        }
    }

    fn run_repeat(&mut self, var: u64, body: usize, cond: usize, fuel: u64) -> (r: Result<
        (),
        Error,
    >)
        requires
            old(self).wf(),
        ensures
            final(self).follows(
                old(self),
                run_repeat(
                    old(self).ctx(),
                    old(self).state(),
                    var,
                    body,
                    cond,
                    fuel as nat,
                    ITERATION_CAP as nat,
                ).0,
            ),
            r == run_repeat(
                old(self).ctx(),
                old(self).state(),
                var,
                body,
                cond,
                fuel as nat,
                ITERATION_CAP as nat,
            ).1,
        decreases fuel, 5nat, 0nat,
    {
        let ghost c = self.ctx();
        let ghost s0 = self.state();
        let mut budget: u64 = ITERATION_CAP;
        loop
            invariant
                self.follows(old(self), self.state()),
                c == self.ctx(),
                s0 == old(self).state(),
                run_repeat(c, s0, var, body, cond, fuel as nat, ITERATION_CAP as nat)
                    == run_repeat(c, self.state(), var, body, cond, fuel as nat, budget as nat),
            decreases budget,
        {
            if budget == 0 {
                return Err(Error::UnboundedLoop { at: Loc::Expr(cond) });
            }
            match self.exec_block(body, fuel) {
                Err(err) => {
                    return Err(err);
                },
                Ok(()) => {},
            }
            match self.eval_cond(cond, ADAPTIVE | BACKWARDS_BRANCHING, fuel) {
                Err(err) => {
                    return Err(err);
                },
                Ok(done) => {
                    self.emit_store(
                        Variable { id: var, ty: Ty::Boolean },
                        Operand::Literal(Literal::Bool(!done)),
                    );
                    if done {
                        return Ok(());
                    }
                },
            }
            budget = budget - 1;
        }
    }

    fn run_range(&mut self, item: u64, a: i64, z: i64, body: usize, at: usize, fuel: u64) -> (r:
        Result<(), Error>)
        requires
            old(self).wf(),
        ensures
            final(self).follows(
                old(self),
                run_range(
                    old(self).ctx(),
                    old(self).state(),
                    item,
                    a,
                    z,
                    body,
                    at,
                    fuel as nat,
                    ITERATION_CAP as nat,
                ).0,
            ),
            r == run_range(
                old(self).ctx(),
                old(self).state(),
                item,
                a,
                z,
                body,
                at,
                fuel as nat,
                ITERATION_CAP as nat,
            ).1,
        decreases fuel, 5nat, 0nat,
    {
        let ghost c = self.ctx();
        let ghost s0 = self.state();
        let mut budget: u64 = ITERATION_CAP;
        let mut k: i64 = a;
        loop
            invariant
                self.follows(old(self), self.state()),
                c == self.ctx(),
                s0 == old(self).state(),
                run_range(c, s0, item, a, z, body, at, fuel as nat, ITERATION_CAP as nat)
                    == run_range(c, self.state(), item, k, z, body, at, fuel as nat, budget as nat),
            decreases budget,
        {
            if k > z {
                return Ok(());
            }
            if budget == 0 {
                return Err(Error::UnboundedLoop { at: Loc::Stmt(at) });
            }
            match self.run_item(item, Value::Int(k), body, fuel) {
                Err(err) => {
                    return Err(err);
                },
                Ok(()) => {},
            }
            if k == z {
                return Ok(());
            }
            k = k + 1;
            budget = budget - 1;
        }
    }

    fn run_array(
        &mut self,
        item: u64,
        start: usize,
        len: usize,
        body: usize,
        at: usize,
        fuel: u64,
    ) -> (r: Result<(), Error>)
        requires
            old(self).wf(),
        ensures
            final(self).follows(
                old(self),
                run_array(
                    old(self).ctx(),
                    old(self).state(),
                    item,
                    start,
                    len,
                    0,
                    body,
                    at,
                    fuel as nat,
                    ITERATION_CAP as nat,
                ).0,
            ),
            r == run_array(
                old(self).ctx(),
                old(self).state(),
                item,
                start,
                len,
                0,
                body,
                at,
                fuel as nat,
                ITERATION_CAP as nat,
            ).1,
        decreases fuel, 5nat, 0nat,
    {
        let ghost c = self.ctx();
        let ghost s0 = self.state();
        let mut budget: u64 = ITERATION_CAP;
        let mut k: usize = 0;
        loop
            invariant
                self.follows(old(self), self.state()),
                c == self.ctx(),
                s0 == old(self).state(),
                run_array(c, s0, item, start, len, 0, body, at, fuel as nat, ITERATION_CAP as nat)
                    == run_array(
                    c,
                    self.state(),
                    item,
                    start,
                    len,
                    k,
                    body,
                    at,
                    fuel as nat,
                    budget as nat,
                ),
            decreases budget,
        {
            if k >= len {
                return Ok(());
            }
            if budget == 0 {
                return Err(Error::UnboundedLoop { at: Loc::Stmt(at) });
            }
            if start >= self.items.len() || k >= self.items.len() - start {
                return Err(Error::InvalidProgram { at: Loc::Stmt(at) });
            }
            let v = self.items[start + k];
            match self.run_item(item, v, body, fuel) {
                Err(err) => {
                    return Err(err);
                },
                Ok(()) => {},
            }
            k = k + 1;
            budget = budget - 1;
        }
    }
}

} // verus!
