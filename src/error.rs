use vstd::prelude::*;

verus! {

/// The kind of failure that ends a run.
#[derive(Clone, Copy, PartialEq, Eq, Debug, Structural)]
pub enum ErrorKind {
    /// An unrecognized character, an unterminated string, an integer literal out of range.
    Lexical,
    /// A token that the grammar does not allow at its position.
    Syntax,
    /// Operands, assignment or condition of the wrong type.
    RuntimeType,
    /// A name used with no entry in the variable table.
    UndeclaredVariable,
    /// Text read into an integer variable that is not an integer.
    InputFormat,
    /// Integer overflow or division by zero.
    Arithmetic,
}

} // verus!
