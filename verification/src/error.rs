//! The conditions on which an operation refuses its operands.

use vstd::prelude::*;

verus! {

/// Why an operation on matrices was refused.
#[derive(Clone, Copy, Debug, PartialEq, Eq, Structural)]
pub enum MatrixError {
    /// The shapes of two operands do not fit the operation.
    DimensionMismatch,
    /// A square matrix was asked for.
    NotSquare,
    /// A single row or a single column was asked for.
    NotAVector,
    /// A matrix with at least one cell was asked for.
    EmptyMatrix,
}

impl MatrixError {
    /// One line of text that names the condition.
    pub fn to_string(&self) -> (s: String)
        ensures
            s@ == match *self {
                MatrixError::DimensionMismatch => "The dimensions of two matrices mismatch."@,
                MatrixError::NotSquare => "Matrix is not square."@,
                MatrixError::NotAVector => "Matrix is not a vector."@,
                MatrixError::EmptyMatrix => "Matrix is empty."@,
            },
    {
        match self {
            MatrixError::DimensionMismatch => "The dimensions of two matrices mismatch.".to_string(),
            MatrixError::NotSquare => "Matrix is not square.".to_string(),
            MatrixError::NotAVector => "Matrix is not a vector.".to_string(),
            MatrixError::EmptyMatrix => "Matrix is empty.".to_string(),
        }
    }
}

} // verus!
