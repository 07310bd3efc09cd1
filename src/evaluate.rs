//! The entry point of partial evaluation and the program it produces.
use vstd::prelude::*;
use crate::rir::{
    Block, BlockId, Callable, CallableId, CallableType, Literal, Operand, Program, Terminator, Ty,
};
use crate::semantics::{
    emitted_wf, qubits_wf, record_of, run_entry, CallableSource, Ctx, Error, RecordKind, State, Value,
    DEPTH_CAP,
};
use crate::source::{ComputeProps, ProgramEntry, SourceProgram};
use crate::specializer::Specializer;

verus! {

pub open spec fn record_name(k: RecordKind) -> Seq<char> {
    match k {
        RecordKind::Tuple => "__quantum__rt__tuple_record_output"@,
        RecordKind::Int => "__quantum__rt__int_record_output"@,
        RecordKind::Bool => "__quantum__rt__bool_record_output"@,
        RecordKind::Result => "__quantum__rt__result_record_output"@,
    }
}

pub open spec fn record_input(k: RecordKind) -> Seq<Ty> {
    match k {
        RecordKind::Tuple => seq![Ty::Integer, Ty::Pointer],
        RecordKind::Int => seq![Ty::Integer, Ty::Pointer],
        RecordKind::Bool => seq![Ty::Boolean, Ty::Pointer],
        RecordKind::Result => seq![Ty::Result, Ty::Pointer],
    }
}

/// The emitted callable `c` is the one that `src` stands for: the entry
/// callable `main` whose body is block 0, a declared operation, or an
/// output-recording function.
pub open spec fn callable_models(c: Callable, p: SourceProgram, src: CallableSource) -> bool {
    match src {
        CallableSource::Entry => {
            &&& c.name@ == "main"@
            &&& c.call_type == CallableType::Regular
            &&& c.input_type@ == Seq::<Ty>::empty()
            &&& c.output_type == None::<Ty>
            &&& c.body == Some(BlockId(0))
        },
        CallableSource::Op(k) => {
            &&& c.name@ == p.ops@[k as int].name@
            &&& c.call_type == p.ops@[k as int].call_type
            &&& c.input_type@ == p.ops@[k as int].input_type@
            &&& c.output_type == p.ops@[k as int].output_type
            &&& c.body == None::<BlockId>
        },
        CallableSource::Record(k) => {
            &&& c.name@ == record_name(k)
            &&& c.call_type == CallableType::OutputRecording
            &&& c.input_type@ == record_input(k)
            &&& c.output_type == None::<Ty>
            &&& c.body == None::<BlockId>
        },
    }
}

/// `r` is the program of final state `s`: one block holding everything
/// emitted and ending in `Return`, and one callable per table entry.
pub open spec fn program_models(r: Program, p: SourceProgram, s: State) -> bool {
    &&& r.entry == CallableId(0)
    &&& r.callables@.len() == s.callables.len()
    &&& forall|i: int|
        0 <= i < s.callables.len() ==> callable_models(
            #[trigger] r.callables@[i],
            p,
            s.callables[i],
        )
    &&& r.blocks@.len() == 1
    &&& r.blocks@[0].instructions@ == s.instrs
    &&& r.blocks@[0].operands@ == s.operands
    &&& r.blocks@[0].terminator == Terminator::Return
}

/// `r` is what partial evaluation gives on these inputs: the error at
/// which evaluation stopped, or the program of its final state, whose
/// emitted part is well formed and whose qubit ownership is consistent.
pub open spec fn evaluates_to(
    p: SourceProgram,
    props: Seq<ComputeProps>,
    entry: ProgramEntry,
    caps: u64,
    r: Result<Program, Error>,
) -> bool {
    match run_entry(Ctx { p, props, caps }, entry) {
        Err(e) => r == Err::<Program, Error>(e),
        Ok(s) => {
            &&& r is Ok
            &&& program_models(r->Ok_0, p, s)
            &&& r->Ok_0.wf()
            &&& emitted_wf(p, s)
            &&& qubits_wf(s)
        },
    }
}

fn record_of_exec(v: Value) -> (r: Option<(RecordKind, Vec<Operand>)>)
    ensures
        match record_of(v) {
            None => r is None,
            Some((k, args)) => r is Some && r->Some_0.0 == k && r->Some_0.1@ == args,
        },
{
    let first = match v {
        Value::Unit => (RecordKind::Tuple, Operand::Literal(Literal::Integer(0))),
        Value::Int(n) => (RecordKind::Int, Operand::Literal(Literal::Integer(n))),
        Value::Bool(b) => (RecordKind::Bool, Operand::Literal(Literal::Bool(b))),
        Value::Var(x) => match x.ty {
            Ty::Integer => (RecordKind::Int, Operand::Variable(x)),
            Ty::Boolean => (RecordKind::Bool, Operand::Variable(x)),
            Ty::Result => (RecordKind::Result, Operand::Variable(x)),
            _ => {
                return None;
            },
        },
        _ => {
            return None;
        },
    };
    let mut args: Vec<Operand> = Vec::new();
    args.push(first.1);
    args.push(Operand::Literal(Literal::Pointer));
    assert(args@ =~= record_of(v)->Some_0.1);
    Some((first.0, args))
}

fn copy_tys(v: &Vec<Ty>) -> (r: Vec<Ty>)
    ensures
        r@ == v@,
{
    let mut out: Vec<Ty> = Vec::new();
    let mut i: usize = 0;
    while i < v.len()
        invariant
            i <= v@.len(),
            out@ == v@.subrange(0, i as int),
        decreases v@.len() - i,
    {
        out.push(v[i]);
        i = i + 1;
        assert(out@ =~= v@.subrange(0, i as int));
    }
    assert(out@ =~= v@);
    out
}

fn record_input_exec(k: RecordKind) -> (r: Vec<Ty>)
    ensures
        r@ == record_input(k),
{
    let mut v: Vec<Ty> = Vec::new();
    match k {
        RecordKind::Bool => v.push(Ty::Boolean),
        RecordKind::Result => v.push(Ty::Result),
        _ => v.push(Ty::Integer),
    }
    v.push(Ty::Pointer);
    assert(v@ =~= record_input(k));
    v
}

fn build_callable(p: &SourceProgram, src: CallableSource) -> (r: Callable)
    requires
        src matches CallableSource::Op(k) ==> k < p.ops@.len(),
    ensures
        callable_models(r, *p, src),
{
    match src {
        CallableSource::Entry => Callable {
            name: String::from_str("main"),
            call_type: CallableType::Regular,
            input_type: Vec::new(),
            output_type: None,
            body: Some(BlockId(0)),
        },
        CallableSource::Op(k) => {
            let op = &p.ops[k];
            Callable {
                name: op.name.clone(),
                call_type: op.call_type,
                input_type: copy_tys(&op.input_type),
                output_type: op.output_type,
                body: None,
            }
        },
        CallableSource::Record(kind) => {
            let name = match kind {
                RecordKind::Tuple => "__quantum__rt__tuple_record_output",
                RecordKind::Int => "__quantum__rt__int_record_output",
                RecordKind::Bool => "__quantum__rt__bool_record_output",
                RecordKind::Result => "__quantum__rt__result_record_output",
            };
            Callable {
                name: String::from_str(name),
                call_type: CallableType::OutputRecording,
                input_type: record_input_exec(kind),
                output_type: None,
                body: None,
            }
        },
    }
}

/// Partially evaluates the program from `entry` for a target with
/// capability flags `caps`: all classical computation runs now, and the
/// operations with physical effects are emitted, in execution order, into
/// one loop-free block. On any error no program is returned.
pub fn partially_evaluate(
    program: &SourceProgram,
    props: &Vec<ComputeProps>,
    entry: ProgramEntry,
    caps: u64,
) -> (r: Result<Program, Error>)
    ensures
        evaluates_to(*program, props@, entry, caps, r),
{
    let mut sp = Specializer::new(program, props, caps);
    if entry.block >= program.blocks.len() {
        return Err(Error::InvalidProgram { at: crate::semantics::Loc::Block(entry.block) });
    }
    match sp.exec_stmts(&program.blocks[entry.block], DEPTH_CAP) {
        Err(e) => {
            return Err(e);
        },
        Ok(()) => {},
    }
    let v = match sp.eval_expr(entry.result, DEPTH_CAP) {
        Err(e) => {
            return Err(e);
        },
        Ok(v) => v,
    };
    match record_of_exec(v) {
        None => Err(Error::UnsupportedExpressionForm { at: entry.result }),
        Some((kind, args)) => {
            sp.emit_call(CallableSource::Record(kind), args, None);
            Ok(finish(sp))
        },
    }
}

/// The program of a finished evaluation.
fn finish(sp: Specializer) -> (r: Program)
    requires
        sp.wf(),
    ensures
        program_models(r, *sp.prog, sp.state()),
        r.wf(),
{
    let p = sp.prog;
    let mut callables: Vec<Callable> = Vec::new();
    let mut i: usize = 0;
    while i < sp.callables.len()
        invariant
            sp.wf(),
            *p == *sp.prog,
            i <= sp.callables@.len(),
            callables@.len() == i,
            forall|j: int|
                0 <= j < i ==> callable_models(
                    #[trigger] callables@[j],
                    *p,
                    sp.callables@[j],
                ),
        decreases sp.callables@.len() - i,
    {
        let src = sp.callables[i];
        assert(sp.state().callables[i as int] == src);
        assert(emitted_wf(*p, sp.state()));
        assert(match sp.state().callables[i as int] {
            CallableSource::Op(o) => o < p.ops@.len(),
            _ => true,
        });
        assert(src matches CallableSource::Op(k) ==> k < p.ops@.len());
        callables.push(build_callable(p, src));
        i = i + 1;
    }
    let ghost s = sp.state();
    let block = Block { instructions: sp.instrs, operands: sp.operands, terminator: Terminator::Return };
    let mut blocks: Vec<Block> = Vec::new();
    blocks.push(block);
    let r = Program { callables, blocks, entry: CallableId(0) };
    assert(r.blocks@[0].instructions@ == s.instrs);
    assert(r.blocks@[0].wf()) by {
        assert forall|k: int| 0 <= k < s.instrs.len() implies match #[trigger] s.instrs[k] {
            crate::rir::Instruction::Call { args_start, args_len, .. } => args_start + args_len
                <= s.operands.len(),
            _ => true,
        } by {
            assert(emitted_wf(*p, s));
        }
    }
    r
}

} // verus!
