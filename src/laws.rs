//! Laws of partial evaluation, proved over its semantics.
use vstd::prelude::*;
use crate::evaluate::{callable_models, evaluates_to, program_models};
use crate::rir::{CallableId, Instruction, Literal, Operand, Program, Ty, Variable};
use crate::semantics::{
    alloc_qubit, allocator_wf, bind, close_scope, emit_call, emit_store, eval_cond, eval_expr,
    eval_list, exec_block, exec_stmt, exec_stmts, find_binding, find_callable, gate,
    lemma_find_first, live_qubits, operand_of, props_of, resolve, run_array, run_entry, run_item,
    run_repeat, run_while, same_source, ADAPTIVE, BACKWARDS_BRANCHING, Binding, CallableSource, Ctx,
    DEPTH_CAP, Error, Loc, State, Value,
};
use crate::source::{BinOp, ComputeProps, Expr, ProgramEntry, SourceProgram, Stmt};

verus! {

/// Two programs render identically: callable by callable and block by block.
pub open spec fn same_rendering(a: Program, b: Program) -> bool {
    &&& a.entry == b.entry
    &&& a.callables@.len() == b.callables@.len()
    &&& forall|i: int|
        0 <= i < a.callables@.len() ==> (#[trigger] a.callables@[i]).text()
            == b.callables@[i].text()
    &&& a.blocks@.len() == b.blocks@.len()
    &&& forall|i: int| 0 <= i < a.blocks@.len() ==> (#[trigger] a.blocks@[i]).text() == b.blocks@[i].text()
}

/// Determinism: partial evaluation of the same program, entry, target
/// capabilities and compute properties gives the same error, or programs
/// whose renderings are identical.
pub proof fn lemma_deterministic(
    p: SourceProgram,
    props: Seq<ComputeProps>,
    entry: ProgramEntry,
    caps: u64,
    r1: Result<Program, Error>,
    r2: Result<Program, Error>,
)
    requires
        evaluates_to(p, props, entry, caps, r1),
        evaluates_to(p, props, entry, caps, r2),
    ensures
        r1 is Err ==> r1 == r2,
        r1 is Ok ==> r2 is Ok && same_rendering(r1->Ok_0, r2->Ok_0),
{
    if let Ok(s) = run_entry(Ctx { p, props, caps }, entry) {
        let a = r1->Ok_0;
        let b = r2->Ok_0;
        assert(program_models(a, p, s) && program_models(b, p, s));
        assert forall|i: int| 0 <= i < a.callables@.len() implies (#[trigger] a.callables@[i]).text()
            == b.callables@[i].text() by {
            assert(callable_models(a.callables@[i], p, s.callables[i]));
            assert(callable_models(b.callables@[i], p, s.callables[i]));
        }
        assert forall|i: int| 0 <= i < a.blocks@.len() implies (#[trigger] a.blocks@[i]).text()
            == b.blocks@[i].text() by {
            assert(i == 0);
        }
    }
}

proof fn lemma_find_congruent(
    p: SourceProgram,
    cs: Seq<CallableSource>,
    a: CallableSource,
    b: CallableSource,
    i: int,
)
    requires
        0 <= i,
        forall|j: int| 0 <= j < cs.len() ==> same_source(p, #[trigger] cs[j], a) == same_source(p, cs[j], b),
    ensures
        find_callable(p, cs, a, i) == find_callable(p, cs, b, i),
    decreases cs.len() - i,
{
    if i < cs.len() {
        lemma_find_congruent(p, cs, a, b, i + 1);
    }
}

/// Callable deduplication: resolving the callables of two call sites gives
/// one id exactly when the operations are the same physical operation with
/// the same kind and signature.
pub proof fn lemma_callable_dedup(
    p: SourceProgram,
    cs: Seq<CallableSource>,
    a: CallableSource,
    b: CallableSource,
)
    ensures
        ({
            let (cs1, i1) = resolve(p, cs, a);
            let (cs2, i2) = resolve(p, cs1, b);
            &&& same_source(p, a, b) ==> i2 == i1 && cs2 == cs1
            &&& !same_source(p, a, b) ==> i2 != i1
        }),
{
    let (cs1, i1) = resolve(p, cs, a);
    let (cs2, i2) = resolve(p, cs1, b);
    lemma_find_first(p, cs, a, 0);
    lemma_find_first(p, cs1, a, 0);
    lemma_find_first(p, cs1, b, 0);
    assert(same_source(p, a, a));
    assert(same_source(p, cs1[i1], a));
    assert(0 <= i1 < cs1.len());
    if same_source(p, a, b) {
        assert forall|j: int| 0 <= j < cs1.len() implies same_source(p, #[trigger] cs1[j], a)
            == same_source(p, cs1[j], b) by {}
        lemma_find_congruent(p, cs1, a, b, 0);
        assert(find_callable(p, cs1, a, 0) == i1);
    } else {
        if i2 == i1 {
            assert(i2 < cs1.len());
            assert(same_source(p, cs1[i2], b));
        }
    }
}

/// Capability rejection: a branch on a condition classified as needing a
/// runtime value, on a target without forward branching, fails with
/// `UnsupportedRuntimeCapability` at the condition and emits nothing.
pub proof fn lemma_runtime_branch_rejected(c: Ctx, s: State, i: usize, fuel: nat)
    requires
        fuel > 0,
        i < c.p.stmts@.len(),
        c.p.stmts@[i as int] matches Stmt::If(cond, _, _),
        props_of(c, c.p.stmts@[i as int]->If_0).requires_runtime_value,
        c.caps & ADAPTIVE == 0,
    ensures
        ({
            let cond = c.p.stmts@[i as int]->If_0;
            exec_stmt(c, s, i, fuel) == (
                s,
                Err::<(), Error>(
                    Error::UnsupportedRuntimeCapability {
                        at: cond,
                        missing: (props_of(c, cond).required_capabilities | ADAPTIVE) & !c.caps,
                    },
                ),
            )
        }),
{
    let cond = c.p.stmts@[i as int]->If_0;
    let req = props_of(c, cond).required_capabilities;
    let caps = c.caps;
    assert((req | 1u64) & !caps != 0) by (bit_vector)
        requires
            caps & 1u64 == 0,
    ;
}

/// Capability rejection for a whole program: when the entry's first
/// statement is such a branch, partial evaluation returns that error and
/// no program.
pub proof fn lemma_runtime_branch_rejects_program(
    p: SourceProgram,
    props: Seq<ComputeProps>,
    entry: ProgramEntry,
    caps: u64,
    r: Result<Program, Error>,
)
    requires
        evaluates_to(p, props, entry, caps, r),
        entry.block < p.blocks@.len(),
        p.blocks@[entry.block as int]@.len() > 0,
        p.blocks@[entry.block as int]@[0] < p.stmts@.len(),
        p.stmts@[p.blocks@[entry.block as int]@[0] as int] matches Stmt::If(cond, _, _),
        props_of(
            Ctx { p, props, caps },
            p.stmts@[p.blocks@[entry.block as int]@[0] as int]->If_0,
        ).requires_runtime_value,
        caps & ADAPTIVE == 0,
    ensures
        ({
            let cond = p.stmts@[p.blocks@[entry.block as int]@[0] as int]->If_0;
            r == Err::<Program, Error>(
                Error::UnsupportedRuntimeCapability {
                    at: cond,
                    missing: (props_of(Ctx { p, props, caps }, cond).required_capabilities
                        | ADAPTIVE) & !caps,
                },
            )
        }),
{
    let c = Ctx { p, props, caps };
    let ids = p.blocks@[entry.block as int]@;
    lemma_runtime_branch_rejected(c, crate::semantics::initial_state(), ids[0], DEPTH_CAP as nat);
}

/// Resource scoping: a newly allocated qubit is none of the qubits that
/// are live at the time of the allocation.
pub proof fn lemma_fresh_qubit(s: State, q0: u64)
    requires
        live_qubits(s).contains(q0),
        alloc_qubit(s) is Some,
    ensures
        alloc_qubit(s)->Some_0.1 != q0,
{
    if s.qfree.len() > 0 {
        assert(s.qfree.contains(s.qfree.last()));
    }
}

/// Non-termination guard: a `while` loop whose condition is the literal
/// `true`, classified as known at compile time, ends in an error rather
/// than a result; with an empty body the error is `UnboundedLoop`.
pub proof fn lemma_while_true_fails(
    c: Ctx,
    s: State,
    cond: usize,
    body: usize,
    fuel: nat,
    budget: nat,
)
    requires
        fuel > 0,
        cond < c.p.exprs@.len(),
        c.p.exprs@[cond as int] == Expr::Bool(true),
        !props_of(c, cond).requires_runtime_value,
    ensures
        run_while(c, s, cond, body, fuel, budget).1 is Err,
        body < c.p.blocks@.len() && c.p.blocks@[body as int]@.len() == 0 ==> run_while(
            c,
            s,
            cond,
            body,
            fuel,
            budget,
        ).1 == Err::<(), Error>(Error::UnboundedLoop { at: Loc::Expr(cond) }),
    decreases budget,
{
    assert(gate(c, cond, ADAPTIVE | BACKWARDS_BRANCHING) is Ok);
    assert(eval_expr(c, s, cond, fuel) == (s, Ok::<Value, Error>(Value::Bool(true))));
    assert(eval_cond(c, s, cond, ADAPTIVE | BACKWARDS_BRANCHING, fuel) == (s, Ok::<bool, Error>(true)));
    if budget > 0 {
        let (s2, r2) = exec_block(c, s, body, fuel);
        if r2 is Ok {
            lemma_while_true_fails(c, s2, cond, body, fuel, (budget - 1) as nat);
        }
        if body < c.p.blocks@.len() && c.p.blocks@[body as int]@.len() == 0 {
            assert(exec_stmts(c, s, c.p.blocks@[body as int]@, 0, fuel) == (s, Ok::<(), Error>(())));
            assert(r2 is Ok);
        }
    }
}

/// Resource scoping: an allocation makes exactly the new qubit live, and
/// keeps the allocator's invariant.
pub proof fn lemma_alloc_live(s: State)
    requires
        allocator_wf(s),
        alloc_qubit(s) is Some,
    ensures
        ({
            let (s1, q) = alloc_qubit(s)->Some_0;
            &&& !live_qubits(s).contains(q)
            &&& live_qubits(s1) == live_qubits(s).insert(q)
            &&& allocator_wf(s1)
        }),
{
    let (s1, q) = alloc_qubit(s)->Some_0;
    if s.qfree.len() > 0 {
        let n = s.qfree.len() - 1;
        assert(s.qfree[n] == q);
        assert(s.qfree.contains(q));
        assert forall|x: u64| s1.qfree.contains(x) <==> (s.qfree.contains(x) && x != q) by {
            if s1.qfree.contains(x) {
                let i = choose|i: int| 0 <= i < s1.qfree.len() && s1.qfree[i] == x;
                assert(s.qfree[i] == x);
                assert(i != n);
            }
            if s.qfree.contains(x) && x != q {
                let i = choose|i: int| 0 <= i < s.qfree.len() && s.qfree[i] == x;
                assert(i != n);
                assert(s1.qfree[i] == x);
            }
        }
        assert(live_qubits(s1) =~= live_qubits(s).insert(q));
    } else {
        assert forall|x: u64| !s.qfree.contains(x) by {}
        assert(live_qubits(s1) =~= live_qubits(s).insert(q));
    }
}

proof fn lemma_find_binding_range(env: Seq<Binding>, x: u64, n: int)
    requires
        0 <= n <= env.len(),
    ensures
        find_binding(env, x, n) < n,
        find_binding(env, x, n) >= 0 ==> env[find_binding(env, x, n)].local == x,
    decreases n,
{
    if n > 0 {
        lemma_find_binding_range(env, x, n - 1);
    }
}

proof fn lemma_find_binding_update(env: Seq<Binding>, x: u64, n: int, k: int, b: Binding)
    requires
        0 <= k < env.len(),
        n <= env.len(),
        b.local == env[k].local,
    ensures
        find_binding(env.update(k, b), x, n) == find_binding(env, x, n),
    decreases n,
{
    if n > 0 {
        lemma_find_binding_update(env, x, n - 1, k, b);
    }
}

/// A loop on the counter `x` and the bound `n` whose condition `cond`
/// is `x cmp n` and whose body block `body` is `op(); x += 1;`, for an
/// operation `op` with no parameters and no result.
pub open spec fn counting_loop(
    c: Ctx,
    cond: usize,
    cmp: BinOp,
    body: usize,
    x: u64,
    n: i64,
    op: usize,
) -> bool {
    let p = c.p;
    &&& cond < p.exprs@.len()
    &&& !props_of(c, cond).requires_runtime_value
    &&& match p.exprs@[cond as int] {
        Expr::Binary(o, ex, en) => {
            &&& o == cmp
            &&& ex < p.exprs@.len()
            &&& p.exprs@[ex as int] == Expr::Local(x)
            &&& en < p.exprs@.len()
            &&& p.exprs@[en as int] == Expr::Int(n)
        },
        _ => false,
    }
    &&& body < p.blocks@.len()
    &&& p.blocks@[body as int]@.len() == 2
    &&& p.blocks@[body as int]@[0] < p.stmts@.len()
    &&& match p.stmts@[p.blocks@[body as int]@[0] as int] {
        Stmt::Expr(e) => e < p.exprs@.len() && (match p.exprs@[e as int] {
            Expr::Call(o, l) => o == op && l < p.lists@.len() && p.lists@[l as int]@.len() == 0,
            _ => false,
        }),
        _ => false,
    }
    &&& op < p.ops@.len()
    &&& p.ops@[op as int].output_type is None
    &&& p.blocks@[body as int]@[1] < p.stmts@.len()
    &&& match p.stmts@[p.blocks@[body as int]@[1] as int] {
        Stmt::AssignOp(BinOp::Add, y, e) => y == x && e < p.exprs@.len() && p.exprs@[e as int]
            == Expr::Int(1),
        _ => false,
    }
}

/// The call of `op` that each iteration of an unrolled loop emits from
/// state `s`.
pub open spec fn unrolled_call(p: SourceProgram, s: State, op: usize) -> Instruction {
    Instruction::Call {
        callable: CallableId(resolve(p, s.callables, CallableSource::Op(op)).1 as usize),
        args_start: s.operands.len() as usize,
        args_len: 0,
        result: None,
    }
}

/// The counter `x` is bound, to `i`, by an ordinary binding.
pub open spec fn counter_is(s: State, x: u64, i: i64) -> bool {
    &&& find_binding(s.env, x, s.env.len() as int) >= 0
    &&& s.env[find_binding(s.env, x, s.env.len() as int)].value == Value::Int(i)
    &&& !s.env[find_binding(s.env, x, s.env.len() as int)].owned
}

/// The condition of a counting loop, with the counter at `i`.
proof fn lemma_counting_cond(c: Ctx, s: State, cond: usize, cmp: BinOp, body: usize, x: u64, i: i64, n: i64, op: usize, fuel: nat)
    requires
        counting_loop(c, cond, cmp, body, x, n, op),
        cmp == BinOp::Lt || cmp == BinOp::Ge,
        fuel >= 2,
        counter_is(s, x, i),
    ensures
        eval_cond(c, s, cond, ADAPTIVE | BACKWARDS_BRANCHING, fuel) == (
            s,
            Ok::<bool, Error>(if cmp == BinOp::Lt { i < n } else { i >= n }),
        ),
{
    let f1 = (fuel - 1) as nat;
    let (ex, en) = match c.p.exprs@[cond as int] {
        Expr::Binary(_, a, b) => (a, b),
        _ => (0, 0),
    };
    assert(eval_expr(c, s, ex, f1) == (s, Ok::<Value, Error>(Value::Int(i))));
    assert(eval_expr(c, s, en, f1) == (s, Ok::<Value, Error>(Value::Int(n))));
}

/// One run of the body `op(); x += 1;` with the counter at `i`: one call
/// of `op` is emitted and the counter moves to `i + 1`.
proof fn lemma_counting_body(c: Ctx, s: State, cond: usize, cmp: BinOp, body: usize, x: u64, i: i64, n: i64, op: usize, fuel: nat)
    requires
        counting_loop(c, cond, cmp, body, x, n, op),
        fuel >= 2,
        counter_is(s, x, i),
        i < n,
    ensures
        ({
            let (s3, r) = exec_block(c, s, body, fuel);
            &&& r is Ok
            &&& s3.instrs == s.instrs.push(unrolled_call(c.p, s, op))
            &&& s3.operands == s.operands
            &&& s3.callables == resolve(c.p, s.callables, CallableSource::Op(op)).0
            &&& counter_is(s3, x, (i + 1) as i64)
        }),
{
    let p = c.p;
    let f1 = (fuel - 1) as nat;
    let k = find_binding(s.env, x, s.env.len() as int);
    lemma_find_binding_range(s.env, x, s.env.len() as int);
    let ids = p.blocks@[body as int]@;
    let sc = ids[0];
    let si = ids[1];
    let ecall = p.stmts@[sc as int]->Expr_0;
    let l = p.exprs@[ecall as int]->Call_1;
    let e1 = p.stmts@[si as int]->AssignOp_2;
    let f2 = (f1 - 1) as nat;
    assert(eval_list(c, s, p.lists@[l as int]@, 0, f2) == (s, Ok::<Seq<Value>, Error>(
        Seq::empty(),
    )));
    assert(Seq::<Value>::empty().map_values(|v: Value| operand_of(v)->Some_0) =~= Seq::<
        Operand,
    >::empty());
    let s1 = emit_call(p, s, CallableSource::Op(op), Seq::empty(), None);
    assert(eval_expr(c, s, ecall, f1) == (s1, Ok::<Value, Error>(Value::Unit)));
    assert(exec_stmt(c, s, sc, fuel) == (s1, Ok::<(), Error>(())));
    assert(s1.env == s.env);
    assert(eval_expr(c, s1, e1, f1) == (s1, Ok::<Value, Error>(Value::Int(1))));
    let b2 = Binding { value: Value::Int((i + 1) as i64), ..s1.env[k] };
    let s2 = State { env: s1.env.update(k, b2), ..s1 };
    assert(exec_stmt(c, s1, si, fuel) == (s2, Ok::<(), Error>(())));
    assert(exec_stmts(c, s2, ids, 2, fuel) == (s2, Ok::<(), Error>(())));
    assert(exec_stmts(c, s1, ids, 1, fuel) == (s2, Ok::<(), Error>(())));
    assert(exec_stmts(c, s, ids, 0, fuel) == (s2, Ok::<(), Error>(())));
    let s3 = close_scope(s2, s.env.len() as int);
    assert(s3.env =~= s2.env);
    assert(exec_block(c, s, body, fuel) == (s3, Ok::<(), Error>(())));
    lemma_find_binding_update(s.env, x, s.env.len() as int, k, b2);
    assert(s3.operands =~= s.operands);
}

/// Unrolling of `while`: with the counter `x` at `i`, the loop
/// `while x < n { op(); x += 1; }` succeeds and emits exactly `n - i`
/// calls of `op`'s one callable, and nothing else: no branch, jump or
/// store for the condition.
pub proof fn lemma_counting_while(
    c: Ctx,
    s: State,
    cond: usize,
    body: usize,
    x: u64,
    i: i64,
    n: i64,
    op: usize,
    fuel: nat,
    budget: nat,
)
    requires
        counting_loop(c, cond, BinOp::Lt, body, x, n, op),
        fuel >= 2,
        counter_is(s, x, i),
        i <= n,
        budget >= n - i,
    ensures
        ({
            let (s2, r) = run_while(c, s, cond, body, fuel, budget);
            &&& r is Ok
            &&& s2.instrs == s.instrs + Seq::new(
                (n - i) as nat,
                |j: int| unrolled_call(c.p, s, op),
            )
        }),
    decreases n - i,
{
    let p = c.p;
    lemma_counting_cond(c, s, cond, BinOp::Lt, body, x, i, n, op, fuel);
    if i < n {
        lemma_counting_body(c, s, cond, BinOp::Lt, body, x, i, n, op, fuel);
        let s3 = exec_block(c, s, body, fuel).0;
        lemma_counting_while(c, s3, cond, body, x, (i + 1) as i64, n, op, fuel, (budget - 1) as nat);
        lemma_callable_dedup(p, s.callables, CallableSource::Op(op), CallableSource::Op(op));
        assert(unrolled_call(p, s3, op) == unrolled_call(p, s, op));
        assert(s.instrs.push(unrolled_call(p, s, op)) + Seq::new(
            (n - (i + 1)) as nat,
            |j: int| unrolled_call(p, s3, op),
        ) =~= s.instrs + Seq::new((n - i) as nat, |j: int| unrolled_call(p, s, op)));
    } else {
        assert(s.instrs + Seq::new(0, |j: int| unrolled_call(p, s, op)) =~= s.instrs);
    }
}

/// What one iteration of an unrolled `repeat` loop emits, as item `t` of
/// the emitted sequence: the call of `op` at even `t`, and at odd `t` the
/// store of whether the loop goes on after the counter reached `i + t / 2 + 1`.
pub open spec fn unrolled_repeat_item(p: SourceProgram, s: State, op: usize, var: u64, i: int, n: int, t: int) -> Instruction {
    if t % 2 == 0 {
        unrolled_call(p, s, op)
    } else {
        Instruction::Store(
            Variable { id: var, ty: Ty::Boolean },
            Operand::Literal(Literal::Bool(i + t / 2 + 1 < n)),
        )
    }
}

/// Unrolling of `repeat`/`until`: with the counter `x` at `i < n`, the loop
/// `repeat { op(); x += 1; } until x >= n` succeeds and emits exactly
/// `n - i` calls of `op`'s one callable, each followed by the store of the
/// re-evaluated condition in the flag variable `var`, the last included.
pub proof fn lemma_counting_repeat(
    c: Ctx,
    s: State,
    var: u64,
    cond: usize,
    body: usize,
    x: u64,
    i: i64,
    n: i64,
    op: usize,
    fuel: nat,
    budget: nat,
)
    requires
        counting_loop(c, cond, BinOp::Ge, body, x, n, op),
        fuel >= 2,
        counter_is(s, x, i),
        i < n,
        budget >= n - i,
    ensures
        ({
            let (s2, r) = run_repeat(c, s, var, body, cond, fuel, budget);
            &&& r is Ok
            &&& s2.instrs == s.instrs + Seq::new(
                (2 * (n - i)) as nat,
                |t: int| unrolled_repeat_item(c.p, s, op, var, i as int, n as int, t),
            )
        }),
    decreases n - i,
{
    let p = c.p;
    lemma_counting_body(c, s, cond, BinOp::Ge, body, x, i, n, op, fuel);
    let s3 = exec_block(c, s, body, fuel).0;
    lemma_counting_cond(c, s3, cond, BinOp::Ge, body, x, (i + 1) as i64, n, op, fuel);
    let done = i + 1 >= n;
    let st = Instruction::Store(
        Variable { id: var, ty: Ty::Boolean },
        Operand::Literal(Literal::Bool(!done)),
    );
    let s4 = emit_store(s3, Variable { id: var, ty: Ty::Boolean }, Operand::Literal(Literal::Bool(!done)));
    let full = Seq::new(
        (2 * (n - i)) as nat,
        |t: int| unrolled_repeat_item(p, s, op, var, i as int, n as int, t),
    );
    assert(full[0] == unrolled_call(p, s, op));
    assert(full[1] == st);
    if done {
        assert(s4.instrs =~= s.instrs + full);
    } else {
        lemma_counting_repeat(c, s4, var, cond, body, x, (i + 1) as i64, n, op, fuel, (budget - 1) as nat);
        lemma_callable_dedup(p, s.callables, CallableSource::Op(op), CallableSource::Op(op));
        assert(unrolled_call(p, s4, op) == unrolled_call(p, s, op));
        let rest = Seq::new(
            (2 * (n - (i + 1))) as nat,
            |t: int| unrolled_repeat_item(p, s4, op, var, (i + 1) as int, n as int, t),
        );
        assert forall|t: int| 0 <= t < rest.len() implies rest[t] == full[t + 2] by {
            assert((t + 2) % 2 == t % 2);
            assert((t + 2) / 2 == t / 2 + 1);
        }
        assert(s4.instrs + rest =~= s.instrs + full);
    }
}

/// A `for` body block `body` that is `op(item);`, for an operation `op`
/// with one parameter and no result.
pub open spec fn call_per_item(c: Ctx, body: usize, item: u64, op: usize) -> bool {
    let p = c.p;
    &&& body < p.blocks@.len()
    &&& p.blocks@[body as int]@.len() == 1
    &&& p.blocks@[body as int]@[0] < p.stmts@.len()
    &&& match p.stmts@[p.blocks@[body as int]@[0] as int] {
        Stmt::Expr(e) => e < p.exprs@.len() && (match p.exprs@[e as int] {
            Expr::Call(o, l) => o == op && l < p.lists@.len() && p.lists@[l as int]@.len() == 1
                && p.lists@[l as int]@[0] < p.exprs@.len() && p.exprs@[p.lists@[l as int]@[0] as int]
                == Expr::Local(item),
            _ => false,
        }),
        _ => false,
    }
    &&& op < p.ops@.len()
    &&& p.ops@[op as int].output_type is None
}

/// One iteration of `for item in array { op(item); }` on the value `v`:
/// one call of `op` with `v` as its argument.
proof fn lemma_item_call(c: Ctx, s: State, item: u64, v: Value, body: usize, op: usize, fuel: nat)
    requires
        call_per_item(c, body, item, op),
        fuel >= 3,
        operand_of(v) is Some,
    ensures
        ({
            let (s3, r) = run_item(c, s, item, v, body, fuel);
            &&& r is Ok
            &&& s3.instrs == s.instrs.push(
                Instruction::Call {
                    callable: CallableId(resolve(c.p, s.callables, CallableSource::Op(op)).1 as usize),
                    args_start: s.operands.len() as usize,
                    args_len: 1,
                    result: None,
                },
            )
            &&& s3.operands == s.operands.push(operand_of(v)->Some_0)
            &&& s3.callables == resolve(c.p, s.callables, CallableSource::Op(op)).0
            &&& s3.items == s.items
        }),
{
    let p = c.p;
    let f1 = (fuel - 1) as nat;
    let f2 = (f1 - 1) as nat;
    let sb = bind(s, item, v, false);
    let ids = p.blocks@[body as int]@;
    let sc = ids[0];
    let ecall = p.stmts@[sc as int]->Expr_0;
    let l = p.exprs@[ecall as int]->Call_1;
    let ex = p.lists@[l as int]@[0];
    assert(find_binding(sb.env, item, sb.env.len() as int) == s.env.len());
    assert(eval_expr(c, sb, ex, f2) == (sb, Ok::<Value, Error>(v)));
    assert(eval_list(c, sb, p.lists@[l as int]@, 1, f2) == (sb, Ok::<Seq<Value>, Error>(
        Seq::empty(),
    )));
    assert(seq![v] + Seq::<Value>::empty() =~= seq![v]);
    assert(eval_list(c, sb, p.lists@[l as int]@, 0, f2) == (sb, Ok::<Seq<Value>, Error>(
        seq![v],
    )));
    let args = seq![operand_of(v)->Some_0];
    assert(seq![v].map_values(|w: Value| operand_of(w)->Some_0) =~= args);
    let s1 = emit_call(p, sb, CallableSource::Op(op), args, None);
    assert(eval_expr(c, sb, ecall, f1) == (s1, Ok::<Value, Error>(Value::Unit)));
    assert(exec_stmt(c, sb, sc, fuel) == (s1, Ok::<(), Error>(())));
    assert(exec_stmts(c, s1, ids, 1, fuel) == (s1, Ok::<(), Error>(())));
    assert(exec_stmts(c, sb, ids, 0, fuel) == (s1, Ok::<(), Error>(())));
    assert(s.operands + args =~= s.operands.push(operand_of(v)->Some_0));
}

/// Unrolling of `for` over an array: from element `k` on, the loop
/// `for item in array { op(item); }` succeeds and emits one call of
/// `op`'s one callable per remaining element, in the elements' order,
/// each passing its element.
pub proof fn lemma_for_array(
    c: Ctx,
    s: State,
    item: u64,
    start: usize,
    len: usize,
    k: usize,
    body: usize,
    at: usize,
    op: usize,
    fuel: nat,
    budget: nat,
)
    requires
        call_per_item(c, body, item, op),
        fuel >= 3,
        k <= len,
        start + len <= s.items.len(),
        forall|j: int| start <= j < start + len ==> (#[trigger] operand_of(s.items[j])) is Some,
        budget >= len - k,
    ensures
        ({
            let (s2, r) = run_array(c, s, item, start, len, k, body, at, fuel, budget);
            let id = resolve(c.p, s.callables, CallableSource::Op(op)).1;
            &&& r is Ok
            &&& s2.instrs == s.instrs + Seq::new(
                (len - k) as nat,
                |j: int|
                    Instruction::Call {
                        callable: CallableId(id as usize),
                        args_start: (s.operands.len() + j) as usize,
                        args_len: 1,
                        result: None,
                    },
            )
            &&& s2.operands == s.operands + Seq::new(
                (len - k) as nat,
                |j: int| operand_of(s.items[start + k + j])->Some_0,
            )
        }),
    decreases len - k,
{
    let p = c.p;
    let id = resolve(p, s.callables, CallableSource::Op(op)).1;
    if k < len {
        let v = s.items[start + k];
        lemma_item_call(c, s, item, v, body, op, fuel);
        let s3 = run_item(c, s, item, v, body, fuel).0;
        lemma_for_array(c, s3, item, start, len, (k + 1) as usize, body, at, op, fuel, (budget - 1) as nat);
        lemma_callable_dedup(p, s.callables, CallableSource::Op(op), CallableSource::Op(op));
        assert(resolve(p, s3.callables, CallableSource::Op(op)).1 == id);
        let calls = Seq::new(
            (len - k) as nat,
            |j: int|
                Instruction::Call {
                    callable: CallableId(id as usize),
                    args_start: (s.operands.len() + j) as usize,
                    args_len: 1,
                    result: None,
                },
        );
        let rest_calls = Seq::new(
            (len - (k + 1)) as nat,
            |j: int|
                Instruction::Call {
                    callable: CallableId(id as usize),
                    args_start: (s3.operands.len() + j) as usize,
                    args_len: 1,
                    result: None,
                },
        );
        assert(s3.instrs + rest_calls =~= s.instrs + calls);
        let ops = Seq::new((len - k) as nat, |j: int| operand_of(s.items[start + k + j])->Some_0);
        let rest_ops = Seq::new(
            (len - (k + 1)) as nat,
            |j: int| operand_of(s3.items[start + (k + 1) + j])->Some_0,
        );
        assert(s3.operands + rest_ops =~= s.operands + ops);
    } else {
        let calls = Seq::new(
            0,
            |j: int|
                Instruction::Call {
                    callable: CallableId(id as usize),
                    args_start: (s.operands.len() + j) as usize,
                    args_len: 1,
                    result: None,
                },
        );
        assert(s.instrs + calls =~= s.instrs);
        assert(s.operands + Seq::new(0, |j: int| operand_of(s.items[start + k + j])->Some_0)
            =~= s.operands);
    }
}

} // verus!
