//! What can go wrong outside the normal outcomes of solving and verifying.

use vstd::prelude::*;

verus! {

/// A failure that is no ordinary outcome. A search that times out and a
/// verification that fails are ordinary outcomes and are reported as `false`.
#[derive(Clone, Copy, Debug, PartialEq, Eq, Structural)]
pub enum PowError {
    /// The bytes handed to the decoder are no encoding of a challenge.
    MalformedEncoding,
    /// The randomness source could not produce bytes.
    EntropySourceFailure,
    /// The wall clock could not be read, or shows a time that has no
    /// RFC 3339 form.
    ClockUnavailable,
    /// The hash function reported a failure instead of a digest.
    DigestUnavailable,
    /// The deadline asked for is not later than the time of issuance, or
    /// lies beyond the dates whose RFC 3339 text can be written and read
    /// back.
    DeadlineOutOfRange,
}

} // verus!
