//! The ways in which decoding or setting up the codec can fail.

use vstd::prelude::*;

verus! {

/// Why the codec gave up. Nothing is recovered after an error: the whole
/// run is abandoned.
#[derive(Clone, Copy, Debug, PartialEq, Eq, Structural)]
pub enum CodecError {
    /// The stream does not start with the four bytes `tiny`.
    BadMagic,
    /// The stream ended in the middle of a value.
    Truncated,
    /// The stream holds a code that stands for no symbol, or a zero run
    /// that leaves the block.
    Malformed,
    /// The Huffman trees could not be built from the code tables. The
    /// tables of this library are complete prefix codes, for which this
    /// does not happen.
    Codebook,
    /// The header asks for frames that are larger than this machine can
    /// address.
    TooLarge,
}

} // verus!
