//! The ways in which a compilation stops.

use vstd::prelude::*;
use crate::ast::BinaryOp;
use crate::program::IrOp;

verus! {

/// Why no output was produced. Every failure is final: nothing is retried
/// and no partial result is handed out.
#[derive(Clone, Copy, Debug, PartialEq, Eq, Structural)]
pub enum CompileError {
    /// A source operator that the intermediate representation cannot express.
    UntranslatableOperator(BinaryOp),
    /// A function whose name is empty once its one-character sigil is removed.
    InvalidFunctionName,
    /// A binary instruction for which no machine instruction is emitted yet.
    UnimplementedOperator(IrOp),
    /// A value of a kind that the code generator does not handle.
    UnimplementedValue,
    /// A program that refers to a function or value it does not hold, uses a
    /// statement where a register is needed, or nests values without end.
    MalformedProgram,
}

} // verus!
