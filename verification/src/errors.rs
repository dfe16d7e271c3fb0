//! Error values surfaced by the decoder.
//!
//! Every malformed or unsupported input degrades into one of these values;
//! no decoding path aborts the process.
use vstd::prelude::*;

verus! {

/// The distinct, inspectable failure kinds of the decoder.
#[derive(Debug, Clone, Copy, PartialEq, Eq, Structural)]
pub enum RootError {
    /// A fixed identifying tag (such as the 4-byte file magic) did not match.
    BadMagic,
    /// Fewer bytes were available than the structure requires.
    TruncatedInput,
    /// The file layout is valid but not supported (for instance more than one
    /// top-level table).
    UnsupportedStructure,
    /// The row-group sweep could not reconcile the chunk boundaries of all
    /// columns with the table's entry count.
    AlignmentError,
    /// A compressed container was undecodable, used an unknown scheme, or
    /// produced a length that contradicts its header.
    DecompressError,
    /// A column's declared element type is outside the supported
    /// numeric/boolean set.
    UnsupportedType,
}

} // verus!
