use partial_eval::partially_evaluate;
use partial_eval::rir::{
    Block, BlockId, Callable, CallableId, CallableType, Double, Instruction, Literal, Operand,
    Program, Terminator, Ty, Variable,
};
use partial_eval::semantics::{Error, Loc, ADAPTIVE};
use partial_eval::source::{BinOp, ComputeProps, Expr, OpDecl, ProgramEntry, SourceProgram, Stmt};

const Q: u64 = 0;
const X: u64 = 1;
const COUNTER: u64 = 2;
const FLAG: u64 = 3;
const INNER: u64 = 4;

fn props_for(p: &SourceProgram) -> Vec<ComputeProps> {
    p.exprs
        .iter()
        .map(|_| ComputeProps { requires_runtime_value: false, required_capabilities: 0 })
        .collect()
}

fn evaluate(p: &mut SourceProgram, body: Vec<usize>) -> Result<Program, Error> {
    let block = p.add_block(body);
    let result = p.add_expr(Expr::Unit);
    let props = props_for(p);
    partially_evaluate(p, &props, ProgramEntry { block, result }, 0)
}

fn decl(p: &mut SourceProgram, name: &str, input_type: Vec<Ty>) -> usize {
    p.add_op(OpDecl {
        name: name.to_string(),
        call_type: CallableType::Regular,
        input_type,
        output_type: None,
    })
}

fn call_stmt(p: &mut SourceProgram, op: usize, args: Vec<usize>) -> usize {
    let l = p.add_list(args);
    let call = p.add_expr(Expr::Call(op, l));
    p.add_stmt(Stmt::Expr(call))
}

fn block_text(program: &Program) -> String {
    program.get_block(BlockId(0)).to_string()
}

/// `mutable x = 0; while x < n { op(q); set x += 1; }` after `use q`.
fn counted_while(n: i64) -> Program {
    let mut p = SourceProgram::new();
    let op = decl(&mut p, "op", vec![Ty::Qubit]);
    let use_q = p.add_stmt(Stmt::Use(Q));
    let zero = p.add_expr(Expr::Int(0));
    let declare = p.add_stmt(Stmt::Mutable(X, zero));
    let q = p.add_expr(Expr::Local(Q));
    let call = call_stmt(&mut p, op, vec![q]);
    let one = p.add_expr(Expr::Int(1));
    let inc = p.add_stmt(Stmt::AssignOp(BinOp::Add, X, one));
    let body = p.add_block(vec![call, inc]);
    let x = p.add_expr(Expr::Local(X));
    let limit = p.add_expr(Expr::Int(n));
    let cond = p.add_expr(Expr::Binary(BinOp::Lt, x, limit));
    let w = p.add_stmt(Stmt::While { cond, body });
    evaluate(&mut p, vec![use_q, declare, w]).unwrap()
}

fn count_calls_to(program: &Program, name: &str) -> usize {
    program.get_block(BlockId(0))
        .instructions
        .iter()
        .filter(|i| {
            matches!(i, Instruction::Call { callable, .. }
                if program.get_callable(*callable).name == name)
        })
        .count()
}

#[test]
fn rendering_is_deterministic() {
    let a = counted_while(4);
    let b = counted_while(4);
    assert_eq!(a.callables.len(), b.callables.len());
    for i in 0..a.callables.len() {
        assert_eq!(a.callables[i].to_string(), b.callables[i].to_string());
    }
    assert_eq!(block_text(&a), block_text(&b));
}

#[test]
fn for_over_array_calls_once_per_element_in_order() {
    let mut p = SourceProgram::new();
    let op = decl(&mut p, "op", vec![Ty::Integer]);
    let a0 = p.add_expr(Expr::Int(7));
    let a1 = p.add_expr(Expr::Int(-3));
    let a2 = p.add_expr(Expr::Int(11));
    let items = p.add_list(vec![a0, a1, a2]);
    let array = p.add_expr(Expr::Array(items));
    let x = p.add_expr(Expr::Local(X));
    let call = call_stmt(&mut p, op, vec![x]);
    let body = p.add_block(vec![call]);
    let f = p.add_stmt(Stmt::ForArray { item: X, counter: COUNTER, array, body });
    let program = evaluate(&mut p, vec![f]).unwrap();
    assert_eq!(
        block_text(&program),
        "Block:
    Variable(0, Integer) = Store Integer(0)
    Call id(1), args( Integer(7), )
    Call id(1), args( Integer(-3), )
    Call id(1), args( Integer(11), )
    Call id(2), args( Integer(0), Pointer, )
    Return"
    );
}

#[test]
fn while_loop_emits_one_call_per_iteration() {
    for n in [0i64, 1, 5, 17] {
        let program = counted_while(n);
        assert_eq!(count_calls_to(&program, "op"), n as usize);
        let block = program.get_block(BlockId(0));
        assert_eq!(block.terminator, Terminator::Return);
    }
}

#[test]
fn repeat_until_emits_one_call_and_one_store_per_iteration() {
    let n: i64 = 4;
    let mut p = SourceProgram::new();
    let op = decl(&mut p, "op", vec![Ty::Qubit]);
    let use_q = p.add_stmt(Stmt::Use(Q));
    let zero = p.add_expr(Expr::Int(0));
    let declare = p.add_stmt(Stmt::Mutable(X, zero));
    let q = p.add_expr(Expr::Local(Q));
    let call = call_stmt(&mut p, op, vec![q]);
    let one = p.add_expr(Expr::Int(1));
    let inc = p.add_stmt(Stmt::AssignOp(BinOp::Add, X, one));
    let body = p.add_block(vec![call, inc]);
    let x = p.add_expr(Expr::Local(X));
    let limit = p.add_expr(Expr::Int(n));
    let cond = p.add_expr(Expr::Binary(BinOp::Ge, x, limit));
    let r = p.add_stmt(Stmt::RepeatUntil { flag: FLAG, body, cond });
    let program = evaluate(&mut p, vec![use_q, declare, r]).unwrap();
    assert_eq!(count_calls_to(&program, "op"), 4);
    let stores = program.get_block(BlockId(0))
        .instructions
        .iter()
        .filter(|i| matches!(i, Instruction::Store(v, _) if v.id == 1))
        .count();
    assert_eq!(stores, 5);
}

#[test]
fn same_operation_declared_twice_shares_one_callable() {
    let mut p = SourceProgram::new();
    let first = decl(&mut p, "h", vec![Ty::Qubit]);
    let second = decl(&mut p, "h", vec![Ty::Qubit]);
    let other = decl(&mut p, "h", vec![Ty::Qubit, Ty::Qubit]);
    let use_q = p.add_stmt(Stmt::Use(Q));
    let q = p.add_expr(Expr::Local(Q));
    let c1 = call_stmt(&mut p, first, vec![q]);
    let c2 = call_stmt(&mut p, second, vec![q]);
    let c3 = call_stmt(&mut p, other, vec![q, q]);
    let program = evaluate(&mut p, vec![use_q, c1, c2, c3]).unwrap();
    assert_eq!(
        block_text(&program),
        "Block:
    Call id(1), args( Qubit(0), )
    Call id(1), args( Qubit(0), )
    Call id(2), args( Qubit(0), Qubit(0), )
    Call id(3), args( Integer(0), Pointer, )
    Return"
    );
    assert_eq!(program.callables.len(), 4);
}

fn runtime_branch(caps: u64, classify: bool) -> (Result<Program, Error>, usize) {
    let mut p = SourceProgram::new();
    let op = decl(&mut p, "op", vec![Ty::Qubit]);
    let use_q = p.add_stmt(Stmt::Use(Q));
    let q = p.add_expr(Expr::Local(Q));
    let call = call_stmt(&mut p, op, vec![q]);
    let then_block = p.add_block(vec![call]);
    let cond = p.add_expr(Expr::Bool(true));
    let branch = p.add_stmt(Stmt::If(cond, then_block, None));
    let block = p.add_block(vec![use_q, call, branch]);
    let result = p.add_expr(Expr::Unit);
    let mut props = props_for(&p);
    if classify {
        props[cond] = ComputeProps { requires_runtime_value: true, required_capabilities: 2 };
    } else {
        props.truncate(cond);
    }
    (partially_evaluate(&p, &props, ProgramEntry { block, result }, caps), cond)
}

#[test]
fn runtime_branch_without_capability_is_rejected() {
    let (r, cond) = runtime_branch(0, true);
    assert_eq!(r.err(), Some(Error::UnsupportedRuntimeCapability { at: cond, missing: 3 }));
    let (r, cond) = runtime_branch(2, true);
    assert_eq!(r.err(), Some(Error::UnsupportedRuntimeCapability { at: cond, missing: 1 }));
}

#[test]
fn missing_classification_counts_as_runtime() {
    let (r, cond) = runtime_branch(0, false);
    assert_eq!(r.err(), Some(Error::UnsupportedRuntimeCapability { at: cond, missing: 1 }));
}

#[test]
fn runtime_branch_on_capable_target_is_not_unrolled() {
    let (r, cond) = runtime_branch(ADAPTIVE | 2, true);
    assert_eq!(r.err(), Some(Error::UnsupportedDynamicControlFlow { at: cond }));
}

#[test]
fn classical_branch_takes_one_arm() {
    let mut p = SourceProgram::new();
    let yes = decl(&mut p, "yes", vec![]);
    let no = decl(&mut p, "no", vec![]);
    let c_yes = call_stmt(&mut p, yes, vec![]);
    let c_no = call_stmt(&mut p, no, vec![]);
    let b_yes = p.add_block(vec![c_yes]);
    let b_no = p.add_block(vec![c_no]);
    let two = p.add_expr(Expr::Int(2));
    let three = p.add_expr(Expr::Int(3));
    let cond = p.add_expr(Expr::Binary(BinOp::Gt, two, three));
    let branch = p.add_stmt(Stmt::If(cond, b_yes, Some(b_no)));
    let program = evaluate(&mut p, vec![branch]).unwrap();
    assert_eq!(program.get_callable(CallableId(1)).name, "no");
    assert_eq!(count_calls_to(&program, "no"), 1);
    assert_eq!(count_calls_to(&program, "yes"), 0);
    assert_eq!(program.callables.len(), 3);
}

#[test]
fn qubit_in_loop_body_never_aliases_a_live_qubit() {
    let mut p = SourceProgram::new();
    let op = decl(&mut p, "cx", vec![Ty::Qubit, Ty::Qubit]);
    let use_q = p.add_stmt(Stmt::Use(Q));
    let use_inner = p.add_stmt(Stmt::Use(INNER));
    let q = p.add_expr(Expr::Local(Q));
    let inner = p.add_expr(Expr::Local(INNER));
    let call = call_stmt(&mut p, op, vec![q, inner]);
    let body = p.add_block(vec![use_inner, call]);
    let start = p.add_expr(Expr::Int(1));
    let end = p.add_expr(Expr::Int(2));
    let f = p.add_stmt(Stmt::ForRange { item: X, counter: COUNTER, start, end, body });
    let program = evaluate(&mut p, vec![use_q, f]).unwrap();
    assert_eq!(
        block_text(&program),
        "Block:
    Variable(0, Integer) = Store Integer(1)
    Call id(1), args( Qubit(0), Qubit(1), )
    Call id(1), args( Qubit(0), Qubit(1), )
    Call id(2), args( Integer(0), Pointer, )
    Return"
    );
}

#[test]
fn always_true_loop_is_unbounded() {
    let mut p = SourceProgram::new();
    let body = p.add_block(vec![]);
    let cond = p.add_expr(Expr::Bool(true));
    let w = p.add_stmt(Stmt::While { cond, body });
    let r = evaluate(&mut p, vec![w]);
    assert_eq!(r.err(), Some(Error::UnboundedLoop { at: Loc::Expr(cond) }));
}

#[test]
fn overlong_range_is_unbounded() {
    let mut p = SourceProgram::new();
    let body = p.add_block(vec![]);
    let start = p.add_expr(Expr::Int(0));
    let end = p.add_expr(Expr::Int(1_000_000));
    let f = p.add_stmt(Stmt::ForRange { item: X, counter: COUNTER, start, end, body });
    let r = evaluate(&mut p, vec![f]);
    assert_eq!(r.err(), Some(Error::UnboundedLoop { at: Loc::Stmt(f) }));
}

#[test]
fn integer_overflow_is_reported() {
    let mut p = SourceProgram::new();
    let big = p.add_expr(Expr::Int(i64::MAX));
    let one = p.add_expr(Expr::Int(1));
    let sum = p.add_expr(Expr::Binary(BinOp::Add, big, one));
    let s = p.add_stmt(Stmt::Let(X, sum));
    assert_eq!(evaluate(&mut p, vec![s]).err(), Some(Error::IntegerOverflow { at: sum }));
}

#[test]
fn index_out_of_range_is_reported() {
    let mut p = SourceProgram::new();
    let a0 = p.add_expr(Expr::Int(5));
    let items = p.add_list(vec![a0]);
    let arr = p.add_expr(Expr::Array(items));
    let idx = p.add_expr(Expr::Int(1));
    let at = p.add_expr(Expr::Index(arr, idx));
    let s = p.add_stmt(Stmt::Let(X, at));
    assert_eq!(evaluate(&mut p, vec![s]).err(), Some(Error::IndexOutOfRange { at }));
}

#[test]
fn unsupported_expression_is_reported() {
    let mut p = SourceProgram::new();
    let five = p.add_expr(Expr::Int(5));
    let not = p.add_expr(Expr::Not(five));
    let s = p.add_stmt(Stmt::Let(X, not));
    assert_eq!(evaluate(&mut p, vec![s]).err(), Some(Error::UnsupportedExpressionForm { at: not }));
}

#[test]
fn unbound_local_is_an_invalid_program() {
    let mut p = SourceProgram::new();
    let one = p.add_expr(Expr::Int(1));
    let s = p.add_stmt(Stmt::Assign(X, one));
    assert_eq!(evaluate(&mut p, vec![s]).err(), Some(Error::InvalidProgram { at: Loc::Stmt(s) }));
}

#[test]
fn missing_entry_block_is_an_invalid_program() {
    let p = SourceProgram::new();
    let props = Vec::new();
    let r = partially_evaluate(&p, &props, ProgramEntry { block: 3, result: 0 }, 0);
    assert_eq!(r.err(), Some(Error::InvalidProgram { at: Loc::Block(3) }));
}

#[test]
fn short_circuit_skips_the_right_operand() {
    let mut p = SourceProgram::new();
    let f = p.add_expr(Expr::Bool(false));
    let bad = p.add_expr(Expr::Local(99));
    let and = p.add_expr(Expr::Binary(BinOp::And, f, bad));
    let s = p.add_stmt(Stmt::Let(X, and));
    assert!(evaluate(&mut p, vec![s]).is_ok());
}

#[test]
fn measurement_result_is_recorded() {
    let mut p = SourceProgram::new();
    let m = p.add_op(OpDecl {
        name: "m".to_string(),
        call_type: CallableType::Measurement,
        input_type: vec![Ty::Qubit],
        output_type: Some(Ty::Result),
    });
    let use_q = p.add_stmt(Stmt::Use(Q));
    let q = p.add_expr(Expr::Local(Q));
    let l = p.add_list(vec![q]);
    let call = p.add_expr(Expr::Call(m, l));
    let block = p.add_block(vec![use_q]);
    let props = props_for(&p);
    let program =
        partially_evaluate(&p, &props, ProgramEntry { block, result: call }, 0).unwrap();
    assert_eq!(
        block_text(&program),
        "Block:
    Variable(0, Result) = Call id(1), args( Qubit(0), )
    Call id(2), args( Variable(0, Result), Pointer, )
    Return"
    );
    assert_eq!(
        program.get_callable(CallableId(2)).to_string(),
        "Callable:
    name: __quantum__rt__result_record_output
    call_type: OutputRecording
    input_type:
        [0]: Result
        [1]: Pointer
    output_type: <VOID>
    body: <NONE>"
    );
    assert_eq!(
        program.get_callable(CallableId(0)).to_string(),
        "Callable:
    name: main
    call_type: Regular
    input_type: <VOID>
    output_type: <VOID>
    body: 0"
    );
}

#[test]
fn literals_render_exactly() {
    let v = Variable { id: 12, ty: Ty::Double };
    let block = Block {
        instructions: vec![
            Instruction::Store(
                v,
                Operand::Literal(Literal::Double(Double {
                    negative: true,
                    whole: 1,
                    frac: 5,
                    frac_width: 2,
                })),
            ),
            Instruction::Store(
                Variable { id: 3, ty: Ty::Integer },
                Operand::Literal(Literal::Integer(i64::MIN)),
            ),
            Instruction::Call {
                callable: CallableId(4),
                args_start: 0,
                args_len: 2,
                result: Some(Variable { id: 5, ty: Ty::Boolean }),
            },
        ],
        operands: vec![Operand::Literal(Literal::Result(9)), Operand::Variable(v)],
        terminator: Terminator::Branch(Variable { id: 5, ty: Ty::Boolean }, BlockId(1), BlockId(2)),
    };
    assert_eq!(
        block.to_string(),
        "Block:
    Variable(12, Double) = Store Double(-1.05)
    Variable(3, Integer) = Store Integer(-9223372036854775808)
    Variable(5, Boolean) = Call id(4), args( Result(9), Variable(12, Double), )
    Branch Variable(5, Boolean), 1, 2"
    );
    let jump = Block { instructions: vec![], operands: vec![], terminator: Terminator::Jump(BlockId(7)) };
    assert_eq!(jump.to_string(), "Block:\n    Jump(7)");
    let c = Callable {
        name: "reset".to_string(),
        call_type: CallableType::Reset,
        input_type: vec![Ty::Qubit],
        output_type: Some(Ty::Integer),
        body: None,
    };
    assert_eq!(
        c.to_string(),
        "Callable:\n    name: reset\n    call_type: Reset\n    input_type:\n        [0]: Qubit\n    output_type: Integer\n    body: <NONE>"
    );
}

#[test]
fn deep_nesting_hits_the_depth_cap() {
    let mut p = SourceProgram::new();
    let mut e = p.add_expr(Expr::Bool(true));
    let mut chain = vec![e];
    for _ in 0..300 {
        e = p.add_expr(Expr::Not(e));
        chain.push(e);
    }
    let s = p.add_stmt(Stmt::Let(X, e));
    let r = evaluate(&mut p, vec![s]);
    assert_eq!(r.err(), Some(Error::UnboundedLoop { at: Loc::Expr(chain[300 - 255]) }));
}

#[test]
fn shallow_nesting_evaluates() {
    let mut p = SourceProgram::new();
    let mut e = p.add_expr(Expr::Bool(true));
    for _ in 0..100 {
        e = p.add_expr(Expr::Not(e));
    }
    let s = p.add_stmt(Stmt::Let(X, e));
    assert!(evaluate(&mut p, vec![s]).is_ok());
}

#[test]
fn qubit_binding_cannot_be_assigned() {
    let mut p = SourceProgram::new();
    let use_a = p.add_stmt(Stmt::Use(Q));
    let use_b = p.add_stmt(Stmt::Use(INNER));
    let a = p.add_expr(Expr::Local(Q));
    let set = p.add_stmt(Stmt::Assign(INNER, a));
    let r = evaluate(&mut p, vec![use_a, use_b, set]);
    assert_eq!(r.err(), Some(Error::InvalidProgram { at: Loc::Stmt(set) }));
}
