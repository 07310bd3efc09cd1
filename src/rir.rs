//! The runtime intermediate representation: callables, blocks and
//! instructions, with their stable textual rendering.
use vstd::prelude::*;
use crate::text::{int_text, nat_text, fixed_text, push_int, push_nat, push_fixed};

verus! {

/// Type tag of a runtime variable or a callable parameter.
#[derive(Clone, Copy, Debug, PartialEq, Eq, Structural)]
pub enum Ty {
    Integer,
    Double,
    Boolean,
    Qubit,
    Result,
    Pointer,
}

/// A double-precision immediate held as decimal text parts:
/// `whole.frac`, where `frac` is written with exactly `frac_width` digits.
#[derive(Clone, Copy, Debug, PartialEq, Eq, Structural)]
pub struct Double {
    pub negative: bool,
    pub whole: u64,
    pub frac: u64,
    pub frac_width: u8,
}

#[derive(Clone, Copy, Debug, PartialEq, Eq, Structural)]
pub enum Literal {
    Integer(i64),
    Double(Double),
    Bool(bool),
    Qubit(u64),
    Result(u64),
    Pointer,
}

#[derive(Clone, Copy, Debug, PartialEq, Eq, Structural)]
pub struct Variable {
    pub id: u64,
    pub ty: Ty,
}

#[derive(Clone, Copy, Debug, PartialEq, Eq, Structural)]
pub enum Operand {
    Literal(Literal),
    Variable(Variable),
}

#[derive(Clone, Copy, Debug, PartialEq, Eq, Structural)]
pub enum CallableType {
    Regular,
    Measurement,
    Reset,
    OutputRecording,
}

#[derive(Clone, Copy, Debug, PartialEq, Eq, Structural)]
pub struct CallableId(pub usize);

#[derive(Clone, Copy, Debug, PartialEq, Eq, Structural)]
pub struct BlockId(pub usize);

/// One instruction of a block. The arguments of a call are the
/// `args_len` operands of the block starting at `args_start`.
#[derive(Clone, Copy, Debug, PartialEq, Eq, Structural)]
pub enum Instruction {
    Store(Variable, Operand),
    Call { callable: CallableId, args_start: usize, args_len: usize, result: Option<Variable> },
}

#[derive(Clone, Copy, Debug, PartialEq, Eq, Structural)]
pub enum Terminator {
    Return,
    Jump(BlockId),
    Branch(Variable, BlockId, BlockId),
}

pub struct Block {
    pub instructions: Vec<Instruction>,
    pub operands: Vec<Operand>,
    pub terminator: Terminator,
}

pub struct Callable {
    pub name: String,
    pub call_type: CallableType,
    pub input_type: Vec<Ty>,
    pub output_type: Option<Ty>,
    pub body: Option<BlockId>,
}

pub struct Program {
    pub callables: Vec<Callable>,
    pub blocks: Vec<Block>,
    pub entry: CallableId,
}

pub open spec fn ty_text(t: Ty) -> Seq<char> {
    match t {
        Ty::Integer => "Integer"@,
        Ty::Double => "Double"@,
        Ty::Boolean => "Boolean"@,
        Ty::Qubit => "Qubit"@,
        Ty::Result => "Result"@,
        Ty::Pointer => "Pointer"@,
    }
}

pub open spec fn double_text(d: Double) -> Seq<char> {
    (if d.negative { "-"@ } else { Seq::empty() }) + nat_text(d.whole as nat) + (if d.frac_width
        == 0 {
        Seq::empty()
    } else {
        "."@ + fixed_text(d.frac as nat, d.frac_width as nat)
    })
}

pub open spec fn literal_text(l: Literal) -> Seq<char> {
    match l {
        Literal::Integer(v) => "Integer("@ + int_text(v as int) + ")"@,
        Literal::Double(d) => "Double("@ + double_text(d) + ")"@,
        Literal::Bool(b) => if b { "Bool(true)"@ } else { "Bool(false)"@ },
        Literal::Qubit(q) => "Qubit("@ + nat_text(q as nat) + ")"@,
        Literal::Result(r) => "Result("@ + nat_text(r as nat) + ")"@,
        Literal::Pointer => "Pointer"@,
    }
}

pub open spec fn variable_text(v: Variable) -> Seq<char> {
    "Variable("@ + nat_text(v.id as nat) + ", "@ + ty_text(v.ty) + ")"@
}

pub open spec fn operand_text(o: Operand) -> Seq<char> {
    match o {
        Operand::Literal(l) => literal_text(l),
        Operand::Variable(v) => variable_text(v),
    }
}

/// Text of the operands `ops[start..start + n]`, each followed by `", "`.
pub open spec fn args_text(ops: Seq<Operand>, start: int, n: nat) -> Seq<char>
    decreases n,
{
    if n == 0 {
        Seq::empty()
    } else {
        args_text(ops, start, (n - 1) as nat) + operand_text(ops[start + n - 1]) + ", "@
    }
}

pub open spec fn instruction_text(i: Instruction, ops: Seq<Operand>) -> Seq<char> {
    match i {
        Instruction::Store(v, o) => variable_text(v) + " = Store "@ + operand_text(o),
        Instruction::Call { callable, args_start, args_len, result } => (match result {
            Some(v) => variable_text(v) + " = "@,
            None => Seq::empty(),
        }) + "Call id("@ + nat_text(callable.0 as nat) + "), args( "@ + args_text(
            ops,
            args_start as int,
            args_len as nat,
        ) + ")"@,
    }
}

pub open spec fn terminator_text(t: Terminator) -> Seq<char> {
    match t {
        Terminator::Return => "Return"@,
        Terminator::Jump(b) => "Jump("@ + nat_text(b.0 as nat) + ")"@,
        Terminator::Branch(v, a, b) => "Branch "@ + variable_text(v) + ", "@ + nat_text(a.0 as nat)
            + ", "@ + nat_text(b.0 as nat),
    }
}

/// Text of the first `n` instructions, one indented line each.
pub open spec fn instructions_text(is: Seq<Instruction>, ops: Seq<Operand>, n: nat) -> Seq<char>
    decreases n,
{
    if n == 0 {
        Seq::empty()
    } else {
        instructions_text(is, ops, (n - 1) as nat) + "\n    "@ + instruction_text(is[n - 1], ops)
    }
}

impl Block {
    /// A block's operands are in range of every call that reads them.
    pub open spec fn wf(&self) -> bool {
        forall|k: int|
            0 <= k < self.instructions@.len() ==> match #[trigger] self.instructions@[k] {
                Instruction::Call { args_start, args_len, .. } => args_start + args_len
                    <= self.operands@.len(),
                _ => true,
            }
    }

    pub open spec fn text(&self) -> Seq<char> {
        "Block:"@ + instructions_text(
            self.instructions@,
            self.operands@,
            self.instructions@.len(),
        ) + "\n    "@ + terminator_text(self.terminator)
    }
}

pub open spec fn input_text(ts: Seq<Ty>, n: nat) -> Seq<char>
    decreases n,
{
    if n == 0 {
        Seq::empty()
    } else {
        input_text(ts, (n - 1) as nat) + "\n        ["@ + nat_text((n - 1) as nat) + "]: "@
            + ty_text(ts[n - 1])
    }
}

pub open spec fn call_type_text(c: CallableType) -> Seq<char> {
    match c {
        CallableType::Regular => "Regular"@,
        CallableType::Measurement => "Measurement"@,
        CallableType::Reset => "Reset"@,
        CallableType::OutputRecording => "OutputRecording"@,
    }
}

impl Callable {
    pub open spec fn text(&self) -> Seq<char> {
        "Callable:\n    name: "@ + self.name@ + "\n    call_type: "@ + call_type_text(
            self.call_type,
        ) + "\n    input_type:"@ + (if self.input_type@.len() == 0 {
            " <VOID>"@
        } else {
            input_text(self.input_type@, self.input_type@.len())
        }) + "\n    output_type: "@ + (match self.output_type {
            Some(t) => ty_text(t),
            None => "<VOID>"@,
        }) + "\n    body: "@ + (match self.body {
            Some(b) => nat_text(b.0 as nat),
            None => "<NONE>"@,
        })
    }
}

fn ty_str(t: Ty) -> (r: &'static str)
    ensures
        r@ == ty_text(t),
{
    match t {
        Ty::Integer => "Integer",
        Ty::Double => "Double",
        Ty::Boolean => "Boolean",
        Ty::Qubit => "Qubit",
        Ty::Result => "Result",
        Ty::Pointer => "Pointer",
    }
}

fn call_type_str(c: CallableType) -> (r: &'static str)
    ensures
        r@ == call_type_text(c),
{
    match c {
        CallableType::Regular => "Regular",
        CallableType::Measurement => "Measurement",
        CallableType::Reset => "Reset",
        CallableType::OutputRecording => "OutputRecording",
    }
}

fn push_double(s: &mut String, d: Double)
    ensures
        final(s)@ == old(s)@ + double_text(d),
{
    if d.negative {
        s.append("-");
    }
    push_nat(s, d.whole);
    if d.frac_width > 0 {
        s.append(".");
        push_fixed(s, d.frac, d.frac_width);
    }
    proof {
        assert(final(s)@ =~= old(s)@ + double_text(d));
    }
}

fn push_literal(s: &mut String, l: Literal)
    ensures
        final(s)@ == old(s)@ + literal_text(l),
{
    match l {
        Literal::Integer(v) => {
            s.append("Integer(");
            push_int(s, v);
            s.append(")");
        },
        Literal::Double(d) => {
            s.append("Double(");
            push_double(s, d);
            s.append(")");
        },
        Literal::Bool(b) => {
            if b {
                s.append("Bool(true)");
            } else {
                s.append("Bool(false)");
            }
        },
        Literal::Qubit(q) => {
            s.append("Qubit(");
            push_nat(s, q);
            s.append(")");
        },
        Literal::Result(r) => {
            s.append("Result(");
            push_nat(s, r);
            s.append(")");
        },
        Literal::Pointer => {
            s.append("Pointer");
        },
    }
    proof {
        assert(final(s)@ =~= old(s)@ + literal_text(l));
    }
}

fn push_variable(s: &mut String, v: Variable)
    ensures
        final(s)@ == old(s)@ + variable_text(v),
{
    s.append("Variable(");
    push_nat(s, v.id);
    s.append(", ");
    s.append(ty_str(v.ty));
    s.append(")");
    proof {
        assert(final(s)@ =~= old(s)@ + variable_text(v));
    }
}

fn push_operand(s: &mut String, o: Operand)
    ensures
        final(s)@ == old(s)@ + operand_text(o),
{
    match o {
        Operand::Literal(l) => push_literal(s, l),
        Operand::Variable(v) => push_variable(s, v),
    }
}

fn push_instruction(s: &mut String, i: Instruction, ops: &Vec<Operand>)
    requires
        match i {
            Instruction::Call { args_start, args_len, .. } => args_start + args_len <= ops@.len(),
            _ => true,
        },
    ensures
        final(s)@ == old(s)@ + instruction_text(i, ops@),
{
    match i {
        Instruction::Store(v, o) => {
            push_variable(s, v);
            s.append(" = Store ");
            push_operand(s, o);
            proof {
                assert(final(s)@ =~= old(s)@ + instruction_text(i, ops@));
            }
        },
        Instruction::Call { callable, args_start, args_len, result } => {
            if let Some(v) = result {
                push_variable(s, v);
                s.append(" = ");
            }
            s.append("Call id(");
            push_nat(s, callable.0 as u64);
            s.append("), args( ");
            let ghost before_args = s@;
            let n_ops = ops.len();
            let mut k: usize = 0;
            while k < args_len
                invariant
                    k <= args_len,
                    args_start + args_len <= ops@.len(),
                    n_ops == ops@.len(),
                    s@ == before_args + args_text(ops@, args_start as int, k as nat),
                decreases args_len - k,
            {
                push_operand(s, ops[args_start + k]);
                s.append(", ");
                k = k + 1;
                proof {
                    assert(s@ =~= before_args + args_text(ops@, args_start as int, k as nat));
                }
            }
            s.append(")");
            proof {
                assert(final(s)@ =~= old(s)@ + instruction_text(i, ops@));
            }
        },
    }
}

fn push_terminator(s: &mut String, t: Terminator)
    ensures
        final(s)@ == old(s)@ + terminator_text(t),
{
    match t {
        Terminator::Return => s.append("Return"),
        Terminator::Jump(b) => {
            s.append("Jump(");
            push_nat(s, b.0 as u64);
            s.append(")");
        },
        Terminator::Branch(v, a, b) => {
            s.append("Branch ");
            push_variable(s, v);
            s.append(", ");
            push_nat(s, a.0 as u64);
            s.append(", ");
            push_nat(s, b.0 as u64);
        },
    }
    proof {
        assert(final(s)@ =~= old(s)@ + terminator_text(t));
    }
}

impl Block {
    /// The block's stable rendering: a header line, then one indented
    /// line per instruction and one for the terminator.
    pub fn to_string(&self) -> (r: String)
        requires
            self.wf(),
        ensures
            r@ == self.text(),
    {
        let mut s = String::from_str("Block:");
        let mut k: usize = 0;
        while k < self.instructions.len()
            invariant
                k <= self.instructions@.len(),
                self.wf(),
                s@ == "Block:"@ + instructions_text(
                    self.instructions@,
                    self.operands@,
                    k as nat,
                ),
            decreases self.instructions@.len() - k,
        {
            s.append("\n    ");
            let i = self.instructions[k];
            assert(match i {
                Instruction::Call { args_start, args_len, .. } => args_start + args_len
                    <= self.operands@.len(),
                _ => true,
            });
            push_instruction(&mut s, i, &self.operands);
            k = k + 1;
            proof {
                assert(s@ =~= "Block:"@ + instructions_text(
                    self.instructions@,
                    self.operands@,
                    k as nat,
                ));
            }
        }
        s.append("\n    ");
        push_terminator(&mut s, self.terminator);
        proof {
            assert(s@ =~= self.text());
        }
        s
    }
}

impl Callable {
    /// The callable's stable rendering: name, kind, parameter types,
    /// result type and body block.
    pub fn to_string(&self) -> (r: String)
        ensures
            r@ == self.text(),
    {
        let mut s = String::from_str("Callable:\n    name: ");
        s.append(self.name.as_str());
        s.append("\n    call_type: ");
        s.append(call_type_str(self.call_type));
        s.append("\n    input_type:");
        let ghost head = s@;
        if self.input_type.len() == 0 {
            s.append(" <VOID>");
        } else {
            let mut k: usize = 0;
            while k < self.input_type.len()
                invariant
                    k <= self.input_type@.len(),
                    s@ == head + input_text(self.input_type@, k as nat),
                decreases self.input_type@.len() - k,
            {
                s.append("\n        [");
                push_nat(&mut s, k as u64);
                s.append("]: ");
                s.append(ty_str(self.input_type[k]));
                k = k + 1;
                proof {
                    assert(s@ =~= head + input_text(self.input_type@, k as nat));
                }
            }
        }
        s.append("\n    output_type: ");
        match self.output_type {
            Some(t) => s.append(ty_str(t)),
            None => s.append("<VOID>"),
        }
        s.append("\n    body: ");
        match self.body {
            Some(b) => push_nat(&mut s, b.0 as u64),
            None => s.append("<NONE>"),
        }
        proof {
            assert(s@ =~= self.text());
        }
        s
    }
}

impl Program {
    /// Every block is well formed and every call names a callable of the table.
    pub open spec fn wf(&self) -> bool {
        &&& forall|b: int| 0 <= b < self.blocks@.len() ==> (#[trigger] self.blocks@[b]).wf()
        &&& forall|b: int, k: int|
            0 <= b < self.blocks@.len() && 0 <= k < self.blocks@[b].instructions@.len()
                ==> match #[trigger] self.blocks@[b].instructions@[k] {
                Instruction::Call { callable, .. } => callable.0 < self.callables@.len(),
                _ => true,
            }
        &&& self.entry.0 < self.callables@.len()
    }

    pub fn get_callable(&self, id: CallableId) -> (r: &Callable)
        requires
            id.0 < self.callables@.len(),
        ensures
            *r == self.callables@[id.0 as int],
    {
        &self.callables[id.0]
    }

    pub fn get_block(&self, id: BlockId) -> (r: &Block)
        requires
            id.0 < self.blocks@.len(),
        ensures
            *r == self.blocks@[id.0 as int],
    {
        &self.blocks[id.0]
    }
}

} // verus!
