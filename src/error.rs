use vstd::prelude::*;

verus! {

/// The ways in which an operation on a state object can fail.
#[derive(Clone, Copy, Debug, PartialEq, Eq, Structural)]
pub enum ErrorCode {
    /// An addition would go past the largest value the counter can hold.
    ArithmeticOverflow,
    /// A subtraction would take the counter below zero.
    ArithmeticUnderflow,
    /// Stored bytes are not the encoding of any value of the expected type.
    DecodeCorruption,
    /// The store refused the operation.
    StoreFailure,
}

/// The result of an operation on a state object.
pub type Response<T> = Result<T, ErrorCode>;

} // verus!
