//! The ways in which decoding can fail.

use crate::chunk::Tag;
use vstd::prelude::*;

verus! {

/// Why a buffer was rejected.
#[derive(Debug, Clone, Copy, PartialEq, Eq)]
pub enum ParseError {
    /// The buffer is shorter than the signature or does not begin with it.
    NotFoundSmafHeader,
    /// A read asked for more bytes than the current range still holds.
    UnexpectedEof,
    /// The chunk whose header starts at `offset` declares a payload that
    /// runs past the end of the range that encloses it.
    ChunkOverflow { tag: Tag, offset: usize },
    /// A slice was requested that does not lie within the buffer.
    OutOfBounds,
    /// Containers are nested more deeply than the decoder is willing to follow.
    TooDeeplyNested,
}

} // verus!
