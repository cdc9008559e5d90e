//! Errors surfaced by the verification engine.

use vstd::prelude::*;

verus! {

/// A rejected operation. Every rejection leaves the engine's state exactly
/// as it was.
#[derive(Clone, Copy, Debug, PartialEq, Eq, Structural)]
pub enum VerifierError {
    /// A configuration percentage, threshold or spread is out of range,
    /// or the slashable spread does not exceed the allowed spread.
    InvalidConfig,
    /// A second submission by the same operator for the same task.
    DuplicateVote,
    /// The operator had no voting power at the task's creation checkpoint.
    Unauthorized,
    /// The submitted result does not have the expected shape.
    InvalidResultFormat,
    /// A submitted price of zero is rejected.
    ZeroPrice,
    /// A weight sum or a tolerance band does not fit in 128 bits.
    Overflow,
}

} // verus!
