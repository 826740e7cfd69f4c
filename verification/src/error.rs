use vstd::prelude::*;

verus! {

/// Why a formula could not be read.
#[derive(Debug, Clone, Copy, PartialEq, Eq, Structural)]
pub enum LogicError {
    /// An operator was met with too few operands on the stack.
    MissingOperand(char),
    /// A character outside the grammar.
    UnrecognizedSymbol(char),
    /// The scan left a number of items on the stack other than one.
    IncompleteFormula { expected: usize, actual: usize },
    /// A set formula names a set that was not supplied.
    UnknownVar,
}

} // verus!
