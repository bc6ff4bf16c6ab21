use vstd::prelude::*;

verus! {

/// The failure kinds shared by every encode/decode operation.
///
/// Each operation reports the first violated invariant it encounters and
/// never hands back a partial record.
#[derive(Clone, Copy, Debug, PartialEq, Eq, Structural)]
pub enum Error {
    /// A decoded length/count prefix is negative.
    NegativeLength,
    /// A sequence exceeds a type-specific ceiling (or the generic 32-bit
    /// length limit of any length-prefixed field).
    LengthExceeded,
    /// A pointer field is negative and not the NIL sentinel.
    InvalidPointer,
    /// A type-specific domain violation (negative material index,
    /// item count below one).
    InvalidField,
    /// Fewer bytes are available than a declared length requires.
    TruncatedInput,
    /// An underlying store failure, reported by callers that do real I/O;
    /// the in-memory codec itself never produces it.
    Io,
}

} // verus!
