//! The ways in which the library refuses.
use vstd::prelude::*;

verus! {

/// Why a proof was refused.
#[derive(Clone, Copy, Debug, PartialEq, Eq, Structural)]
pub enum ProofVerifyError {
    /// The proof does not hold.
    InternalError,
}

/// Why an instance or an assignment was refused.
#[derive(Clone, Copy, Debug, PartialEq, Eq, Structural)]
pub enum R1CSError {
    /// The bytes of a scalar are not its canonical encoding.
    InvalidScalar,
    /// A row or a column lies outside of the matrix.
    InvalidIndex,
}

} // verus!
