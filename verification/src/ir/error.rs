//! The refusals of the library.

use vstd::prelude::*;

verus! {

/// Why an operation on the IR was refused. A refused operation leaves every
/// structure it was given exactly as it found it.
#[derive(Clone, Copy, PartialEq, Eq, Debug, Structural)]
pub enum IrError {
    /// A type handle names no entry of the interner in use.
    UnknownType,
    /// A value handle names no value in scope.
    UnknownValue,
    /// A basic block handle names no block of the graph.
    UnknownBlock,
    /// A function handle names no function of the program.
    UnknownFunction,
    /// `unit` was given as an array element or as a parameter type.
    UnitNotAllowed,
    /// A name is shorter than two characters or does not start with `%` or `@`.
    InvalidName,
    /// An operand has a type other than the one the operation asks for.
    TypeMismatch,
    /// The number of arguments differs from the number of parameters.
    ArityMismatch,
    /// An aggregate was given no elements.
    EmptyAggregate,
    /// A constant was asked for and another kind of value was given.
    NotConstant,
    /// A value that is not an instruction was given to a layout.
    NotInstruction,
    /// The kind of value cannot be created in this scope.
    InvalidKind,
    /// The value or block is still used by some value.
    InUse,
    /// The value or block still has a position in the layout.
    InLayout,
    /// The value or block already has a position in the layout.
    AlreadyInLayout,
    /// The value or block has no position in the layout.
    NotInLayout,
    /// A counter of handles has run out.
    IdsExhausted,
}

} // verus!
