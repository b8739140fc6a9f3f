//! Error kinds of the codec.
//!
//! Every error is returned to the immediate caller; no function of this
//! library panics on input data.

use vstd::prelude::*;

verus! {

/// What went wrong while encoding or decoding a tagged hash value.
#[derive(Clone, Copy, Debug, PartialEq, Eq, Structural)]
pub enum Error {
    /// The destination buffer is shorter than the encoding needs.
    EncodeError,
    /// The output sink rejected a write.
    EncodeWriteError,
    /// Fewer bytes remain than the declared digest length requires.
    DecodeError,
    /// The leading variable-length integer is empty, truncated or
    /// non-canonical.
    DecodeVaru64Error,
    /// The algorithm id is well formed but not one this codec recognizes.
    DecodeUnsupportedAlgorithm,
}

} // verus!
