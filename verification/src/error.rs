use vstd::prelude::*;

verus! {

/// Failure taxonomy of the reader; parsing aborts the current block with one
/// of these.
#[derive(Debug, Clone, Copy, PartialEq, Eq, Structural)]
pub enum MtfError {
    /// A read fell off the end of the input, or a position overflowed.
    Io,
    /// A DBLK or stream header checksum mismatched.
    Checksum,
    /// An integer enumeration was out of range.
    BadTag,
    /// A bitfield held bits that are not defined for its block kind.
    BadFlags,
    /// An SFMB block was met before any TAPE block.
    Dependency,
    /// A structural invariant was violated.
    Invariant,
    /// String bytes were not valid in the declared encoding.
    Encoding,
}

} // verus!
