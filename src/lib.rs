//! Partial evaluation of a lowered quantum program into a flat, loop-free
//! runtime instruction stream.
//!
//! `source` is the program that is read and `rir` the program that is
//! produced. `semantics` states what evaluation computes, `evaluate` holds
//! `partially_evaluate`, whose result is proved to be exactly that, and
//! `laws` proves properties of it.
pub mod text;
pub mod rir;
pub mod source;
pub mod semantics;
mod specializer;
pub mod evaluate;
pub mod laws;

pub use evaluate::partially_evaluate;
