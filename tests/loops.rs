use partial_eval::partially_evaluate;
use partial_eval::rir::{BlockId, CallableId, CallableType, Double, Program, Ty};
use partial_eval::source::{BinOp, ComputeProps, Expr, OpDecl, ProgramEntry, SourceProgram, Stmt};

const Q: u64 = 0;
const IDX: u64 = 1;
const ITEM: u64 = 2;
const COUNTER: u64 = 3;
const FLAG: u64 = 4;
const ANGLES: u64 = 5;

fn classical(p: &SourceProgram) -> Vec<ComputeProps> {
    p.exprs
        .iter()
        .map(|_| ComputeProps { requires_runtime_value: false, required_capabilities: 0 })
        .collect()
}

fn run(p: &SourceProgram, body: Vec<usize>) -> Program {
    let mut p2 = SourceProgram {
        exprs: p.exprs.clone(),
        lists: p.lists.clone(),
        stmts: p.stmts.clone(),
        blocks: p.blocks.clone(),
        ops: p
            .ops
            .iter()
            .map(|o| OpDecl {
                name: o.name.clone(),
                call_type: o.call_type,
                input_type: o.input_type.clone(),
                output_type: o.output_type,
            })
            .collect(),
    };
    let block = p2.add_block(body);
    let result = p2.add_expr(Expr::Unit);
    let props = classical(&p2);
    match partially_evaluate(&p2, &props, ProgramEntry { block, result }, 0) {
        Ok(program) => program,
        Err(error) => panic!("partial evaluation failed: {error:?}"),
    }
}

fn dbl(whole: u64) -> Double {
    Double { negative: false, whole, frac: 0, frac_width: 0 }
}

fn op_decl(p: &mut SourceProgram) -> usize {
    p.add_op(OpDecl {
        name: "op".to_string(),
        call_type: CallableType::Regular,
        input_type: vec![Ty::Qubit],
        output_type: None,
    })
}

fn rotation_decl(p: &mut SourceProgram) -> usize {
    p.add_op(OpDecl {
        name: "rotation".to_string(),
        call_type: CallableType::Regular,
        input_type: vec![Ty::Double, Ty::Qubit],
        output_type: None,
    })
}

/// `op(q)` as a statement.
fn call_op(p: &mut SourceProgram, op: usize) -> usize {
    let q = p.add_expr(Expr::Local(Q));
    let args = p.add_list(vec![q]);
    let call = p.add_expr(Expr::Call(op, args));
    p.add_stmt(Stmt::Expr(call))
}

/// `rotation(theta, q)` as a statement, `theta` given as an expression.
fn call_rotation(p: &mut SourceProgram, op: usize, theta: usize) -> usize {
    let q = p.add_expr(Expr::Local(Q));
    let args = p.add_list(vec![theta, q]);
    let call = p.add_expr(Expr::Call(op, args));
    p.add_stmt(Stmt::Expr(call))
}

/// `set idx += 1;`
fn increment_idx(p: &mut SourceProgram) -> usize {
    let one = p.add_expr(Expr::Int(1));
    p.add_stmt(Stmt::AssignOp(BinOp::Add, IDX, one))
}

/// `mutable idx = 0;`
fn declare_idx(p: &mut SourceProgram) -> usize {
    let zero = p.add_expr(Expr::Int(0));
    p.add_stmt(Stmt::Mutable(IDX, zero))
}

/// `idx < 3` or `idx >= 3`.
fn idx_cmp(p: &mut SourceProgram, op: BinOp) -> usize {
    let idx = p.add_expr(Expr::Local(IDX));
    let three = p.add_expr(Expr::Int(3));
    p.add_expr(Expr::Binary(op, idx, three))
}

/// `let angles = [0.0, 1.0, 2.0];`
fn declare_angles(p: &mut SourceProgram) -> usize {
    let a0 = p.add_expr(Expr::Double(dbl(0)));
    let a1 = p.add_expr(Expr::Double(dbl(1)));
    let a2 = p.add_expr(Expr::Double(dbl(2)));
    let items = p.add_list(vec![a0, a1, a2]);
    let arr = p.add_expr(Expr::Array(items));
    p.add_stmt(Stmt::Let(ANGLES, arr))
}

/// `angles[idx]`
fn angle_at_idx(p: &mut SourceProgram) -> usize {
    let angles = p.add_expr(Expr::Local(ANGLES));
    let idx = p.add_expr(Expr::Local(IDX));
    p.add_expr(Expr::Index(angles, idx))
}

fn assert_callable(program: &Program, id: CallableId, expected: &str) {
    assert_eq!(program.get_callable(id).to_string(), expected);
}

fn assert_block_instructions(program: &Program, id: BlockId, expected: &str) {
    assert_eq!(program.get_block(id).to_string(), expected);
}

const OP_CALLABLE: &str = "Callable:
    name: op
    call_type: Regular
    input_type:
        [0]: Qubit
    output_type: <VOID>
    body: <NONE>";

const ROTATION_CALLABLE: &str = "Callable:
    name: rotation
    call_type: Regular
    input_type:
        [0]: Double
        [1]: Qubit
    output_type: <VOID>
    body: <NONE>";

#[test]
fn unitary_call_within_a_for_loop() {
    let mut p = SourceProgram::new();
    let op = op_decl(&mut p);
    let use_q = p.add_stmt(Stmt::Use(Q));
    let call = call_op(&mut p, op);
    let body = p.add_block(vec![call]);
    let start = p.add_expr(Expr::Int(1));
    let end = p.add_expr(Expr::Int(3));
    let for_loop = p.add_stmt(Stmt::ForRange { item: ITEM, counter: COUNTER, start, end, body });
    let program = run(&p, vec![use_q, for_loop]);

    assert_callable(&program, CallableId(1), OP_CALLABLE);
    assert_block_instructions(
        &program,
        BlockId(0),
        "Block:
    Variable(0, Integer) = Store Integer(1)
    Call id(1), args( Qubit(0), )
    Call id(1), args( Qubit(0), )
    Call id(1), args( Qubit(0), )
    Call id(2), args( Integer(0), Pointer, )
    Return",
    );
}

#[test]
fn unitary_call_within_a_while_loop() {
    let mut p = SourceProgram::new();
    let op = op_decl(&mut p);
    let use_q = p.add_stmt(Stmt::Use(Q));
    let decl = declare_idx(&mut p);
    let call = call_op(&mut p, op);
    let inc = increment_idx(&mut p);
    let body = p.add_block(vec![call, inc]);
    let cond = idx_cmp(&mut p, BinOp::Lt);
    let while_loop = p.add_stmt(Stmt::While { cond, body });
    let program = run(&p, vec![use_q, decl, while_loop]);

    assert_callable(&program, CallableId(1), OP_CALLABLE);
    assert_block_instructions(
        &program,
        BlockId(0),
        "Block:
    Variable(0, Integer) = Store Integer(0)
    Call id(1), args( Qubit(0), )
    Call id(1), args( Qubit(0), )
    Call id(1), args( Qubit(0), )
    Call id(2), args( Integer(0), Pointer, )
    Return",
    );
}

#[test]
fn unitary_call_within_a_repeat_until_loop() {
    let mut p = SourceProgram::new();
    let op = op_decl(&mut p);
    let use_q = p.add_stmt(Stmt::Use(Q));
    let decl = declare_idx(&mut p);
    let call = call_op(&mut p, op);
    let inc = increment_idx(&mut p);
    let body = p.add_block(vec![call, inc]);
    let cond = idx_cmp(&mut p, BinOp::Ge);
    let repeat = p.add_stmt(Stmt::RepeatUntil { flag: FLAG, body, cond });
    let program = run(&p, vec![use_q, decl, repeat]);

    assert_callable(&program, CallableId(1), OP_CALLABLE);
    assert_block_instructions(
        &program,
        BlockId(0),
        "Block:
    Variable(0, Integer) = Store Integer(0)
    Variable(1, Boolean) = Store Bool(true)
    Call id(1), args( Qubit(0), )
    Variable(1, Boolean) = Store Bool(true)
    Call id(1), args( Qubit(0), )
    Variable(1, Boolean) = Store Bool(true)
    Call id(1), args( Qubit(0), )
    Variable(1, Boolean) = Store Bool(false)
    Call id(2), args( Integer(0), Pointer, )
    Return",
    );
}

#[test]
fn rotation_call_within_a_for_loop() {
    let mut p = SourceProgram::new();
    let op = rotation_decl(&mut p);
    let use_q = p.add_stmt(Stmt::Use(Q));
    let a0 = p.add_expr(Expr::Double(dbl(0)));
    let a1 = p.add_expr(Expr::Double(dbl(1)));
    let a2 = p.add_expr(Expr::Double(dbl(2)));
    let items = p.add_list(vec![a0, a1, a2]);
    let array = p.add_expr(Expr::Array(items));
    let theta = p.add_expr(Expr::Local(ITEM));
    let call = call_rotation(&mut p, op, theta);
    let body = p.add_block(vec![call]);
    let for_loop = p.add_stmt(Stmt::ForArray { item: ITEM, counter: COUNTER, array, body });
    let program = run(&p, vec![use_q, for_loop]);

    assert_callable(&program, CallableId(1), ROTATION_CALLABLE);
    assert_block_instructions(
        &program,
        BlockId(0),
        "Block:
    Variable(0, Integer) = Store Integer(0)
    Call id(1), args( Double(0), Qubit(0), )
    Call id(1), args( Double(1), Qubit(0), )
    Call id(1), args( Double(2), Qubit(0), )
    Call id(2), args( Integer(0), Pointer, )
    Return",
    );
}

#[test]
fn rotation_call_within_a_while_loop() {
    let mut p = SourceProgram::new();
    let op = rotation_decl(&mut p);
    let use_q = p.add_stmt(Stmt::Use(Q));
    let angles = declare_angles(&mut p);
    let decl = declare_idx(&mut p);
    let theta = angle_at_idx(&mut p);
    let call = call_rotation(&mut p, op, theta);
    let inc = increment_idx(&mut p);
    let body = p.add_block(vec![call, inc]);
    let cond = idx_cmp(&mut p, BinOp::Lt);
    let while_loop = p.add_stmt(Stmt::While { cond, body });
    let program = run(&p, vec![use_q, angles, decl, while_loop]);

    assert_callable(&program, CallableId(1), ROTATION_CALLABLE);
    assert_block_instructions(
        &program,
        BlockId(0),
        "Block:
    Variable(0, Integer) = Store Integer(0)
    Call id(1), args( Double(0), Qubit(0), )
    Call id(1), args( Double(1), Qubit(0), )
    Call id(1), args( Double(2), Qubit(0), )
    Call id(2), args( Integer(0), Pointer, )
    Return",
    );
}

#[test]
fn rotation_call_within_a_repeat_until_loop() {
    let mut p = SourceProgram::new();
    let op = rotation_decl(&mut p);
    let use_q = p.add_stmt(Stmt::Use(Q));
    let angles = declare_angles(&mut p);
    let decl = declare_idx(&mut p);
    let theta = angle_at_idx(&mut p);
    let call = call_rotation(&mut p, op, theta);
    let inc = increment_idx(&mut p);
    let body = p.add_block(vec![call, inc]);
    let cond = idx_cmp(&mut p, BinOp::Ge);
    let repeat = p.add_stmt(Stmt::RepeatUntil { flag: FLAG, body, cond });
    let program = run(&p, vec![use_q, angles, decl, repeat]);

    assert_callable(&program, CallableId(1), ROTATION_CALLABLE);
    assert_block_instructions(
        &program,
        BlockId(0),
        "Block:
    Variable(0, Integer) = Store Integer(0)
    Variable(1, Boolean) = Store Bool(true)
    Call id(1), args( Double(0), Qubit(0), )
    Variable(1, Boolean) = Store Bool(true)
    Call id(1), args( Double(1), Qubit(0), )
    Variable(1, Boolean) = Store Bool(true)
    Call id(1), args( Double(2), Qubit(0), )
    Variable(1, Boolean) = Store Bool(false)
    Call id(2), args( Integer(0), Pointer, )
    Return",
    );
}
