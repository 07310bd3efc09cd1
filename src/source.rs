//! The lowered program that the specializer reads: expression and
//! statement tables, statement blocks, intrinsic operation declarations,
//! and the per-expression compute properties from the classification pass.
use vstd::prelude::*;
use crate::rir::{CallableType, Double, Ty};

verus! {

#[derive(Clone, Copy, Debug, PartialEq, Eq, Structural)]
pub enum BinOp {
    Add,
    Sub,
    Mul,
    Eq,
    Ne,
    Lt,
    Le,
    Gt,
    Ge,
    And,
    Or,
}

/// An expression node. Operands name other expressions by their index in
/// `SourceProgram::exprs`; `Array` and `Call` name an expression list by
/// its index in `SourceProgram::lists`; `Call` names an operation by its
/// index in `SourceProgram::ops`.
#[derive(Clone, Copy, Debug, PartialEq, Eq, Structural)]
pub enum Expr {
    Unit,
    Int(i64),
    Bool(bool),
    Double(Double),
    Local(u64),
    Not(usize),
    Binary(BinOp, usize, usize),
    Array(usize),
    Index(usize, usize),
    Call(usize, usize),
}

/// A statement node. Blocks are named by their index in
/// `SourceProgram::blocks`. `counter` and `flag` are the hidden mutable
/// locals through which a loop's progress is recorded.
#[derive(Clone, Copy, Debug, PartialEq, Eq, Structural)]
pub enum Stmt {
    Let(u64, usize),
    Mutable(u64, usize),
    Assign(u64, usize),
    AssignOp(BinOp, u64, usize),
    Expr(usize),
    Use(u64),
    If(usize, usize, Option<usize>),
    ForRange { item: u64, counter: u64, start: usize, end: usize, body: usize },
    ForArray { item: u64, counter: u64, array: usize, body: usize },
    While { cond: usize, body: usize },
    RepeatUntil { flag: u64, body: usize, cond: usize },
}

/// An intrinsic operation: its physical identity is its name together
/// with its kind and signature.
pub struct OpDecl {
    pub name: String,
    pub call_type: CallableType,
    pub input_type: Vec<Ty>,
    pub output_type: Option<Ty>,
}

pub struct SourceProgram {
    pub exprs: Vec<Expr>,
    pub lists: Vec<Vec<usize>>,
    pub stmts: Vec<Stmt>,
    pub blocks: Vec<Vec<usize>>,
    pub ops: Vec<OpDecl>,
}

/// Classification of one expression: whether its value is known only when
/// the program runs on the target, and which target capabilities it needs.
#[derive(Clone, Copy, Debug, PartialEq, Eq, Structural)]
pub struct ComputeProps {
    pub requires_runtime_value: bool,
    pub required_capabilities: u64,
}

/// The statements of `block` run in the entry scope; `result` is the
/// value the program returns, recorded as output.
#[derive(Clone, Copy, Debug, PartialEq, Eq, Structural)]
pub struct ProgramEntry {
    pub block: usize,
    pub result: usize,
}

impl SourceProgram {
    pub fn new() -> (r: Self)
        ensures
            r.exprs@.len() == 0,
            r.lists@.len() == 0,
            r.stmts@.len() == 0,
            r.blocks@.len() == 0,
            r.ops@.len() == 0,
    {
        SourceProgram {
            exprs: Vec::new(),
            lists: Vec::new(),
            stmts: Vec::new(),
            blocks: Vec::new(),
            ops: Vec::new(),
        }
    }

    /// Adds an expression node and returns its index.
    pub fn add_expr(&mut self, e: Expr) -> (r: usize)
        ensures
            r == old(self).exprs@.len(),
            final(self).exprs@ == old(self).exprs@.push(e),
            final(self).lists == old(self).lists,
            final(self).stmts == old(self).stmts,
            final(self).blocks == old(self).blocks,
            final(self).ops == old(self).ops,
    {
        let r = self.exprs.len();
        self.exprs.push(e);
        r
    }

    /// Adds an expression list and returns its index.
    pub fn add_list(&mut self, l: Vec<usize>) -> (r: usize)
        ensures
            r == old(self).lists@.len(),
            final(self).lists@ == old(self).lists@.push(l),
            final(self).exprs == old(self).exprs,
            final(self).stmts == old(self).stmts,
            final(self).blocks == old(self).blocks,
            final(self).ops == old(self).ops,
    {
        let r = self.lists.len();
        self.lists.push(l);
        r
    }

    /// Adds a statement node and returns its index.
    pub fn add_stmt(&mut self, st: Stmt) -> (r: usize)
        ensures
            r == old(self).stmts@.len(),
            final(self).stmts@ == old(self).stmts@.push(st),
            final(self).exprs == old(self).exprs,
            final(self).lists == old(self).lists,
            final(self).blocks == old(self).blocks,
            final(self).ops == old(self).ops,
    {
        let r = self.stmts.len();
        self.stmts.push(st);
        r
    }

    /// Adds a block of statements and returns its index.
    pub fn add_block(&mut self, b: Vec<usize>) -> (r: usize)
        ensures
            r == old(self).blocks@.len(),
            final(self).blocks@ == old(self).blocks@.push(b),
            final(self).exprs == old(self).exprs,
            final(self).lists == old(self).lists,
            final(self).stmts == old(self).stmts,
            final(self).ops == old(self).ops,
    {
        let r = self.blocks.len();
        self.blocks.push(b);
        r
    }

    /// Declares an intrinsic operation and returns its index.
    pub fn add_op(&mut self, op: OpDecl) -> (r: usize)
        ensures
            r == old(self).ops@.len(),
            final(self).ops@ == old(self).ops@.push(op),
            final(self).exprs == old(self).exprs,
            final(self).lists == old(self).lists,
            final(self).stmts == old(self).stmts,
            final(self).blocks == old(self).blocks,
    {
        let r = self.ops.len();
        self.ops.push(op);
        r
    }
}

} // verus!
