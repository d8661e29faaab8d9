//! Errors reported at the boundary of the cipher's operations. All are
//! caller input-contract violations, detected synchronously; none are
//! retryable and the core never recovers from them internally.

use vstd::prelude::*;

verus! {

/// Why a cipher operation rejected its inputs.
#[derive(Clone, Copy, Debug, PartialEq, Eq, Structural)]
pub enum Error {
    /// The requested round count lies outside the supported range.
    InvalidRounds,
    /// The round-key table is shorter than the requested round count needs.
    TableTooShort,
    /// The requested word width is not one of the supported fixed sizes.
    UnsupportedWidth,
}

} // verus!
