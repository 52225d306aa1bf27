//! Chunk headers: a four-byte tag and a big-endian payload length.

use crate::cursor::{be32, Cursor};
use crate::error::ParseError;
use vstd::prelude::*;

verus! {

/// The number of bytes in a chunk header: the tag, then the length field.
pub const HEADER_LEN: usize = 8;

/// The four bytes that name a chunk's type.
#[derive(Debug, Clone, Copy, PartialEq, Eq, Structural)]
pub struct Tag(pub u8, pub u8, pub u8, pub u8);

/// `MMMD`: the signature at the head of a file, and the tag of a container.
pub const SMAF_TAG: (u8, u8, u8, u8) = (0x4d, 0x4d, 0x4d, 0x44);

/// `OPDA`: the tag of the metadata chunk.
pub const METADATA_TAG: (u8, u8, u8, u8) = (0x4f, 0x50, 0x44, 0x41);

/// `MTR`: the first three bytes of a score track's tag.
pub const MIDI_PREFIX: (u8, u8, u8) = (0x4d, 0x54, 0x52);

/// `ATR`: the first three bytes of an audio track's tag.
pub const WAVE_PREFIX: (u8, u8, u8) = (0x41, 0x54, 0x52);

/// What the decoder does with a chunk, as decided by its tag.
#[derive(Debug, Clone, Copy, PartialEq, Eq, Structural)]
pub enum ChunkKind {
    /// `MMMD`: the payload is itself a sequence of chunks.
    Container,
    /// `OPDA`: the payload holds the title, author and copyright fields.
    Metadata,
    /// `MTR` and a track number: a score track.
    MidiTrack,
    /// `ATR` and a track number: an audio track.
    WaveTrack,
    /// Any other tag: the payload is skipped.
    Unknown,
}

impl Tag {
    /// The tag made of the four bytes of `t`.
    pub open spec fn of(t: (u8, u8, u8, u8)) -> Tag {
        Tag(t.0, t.1, t.2, t.3)
    }

    /// The tag of the track chunk of the kind that `prefix` names, with the
    /// track number `track_no`.
    pub open spec fn of_track(prefix: (u8, u8, u8), track_no: u8) -> Tag {
        Tag(prefix.0, prefix.1, prefix.2, track_no)
    }

    /// The four bytes in the order in which they are written.
    pub open spec fn bytes(self) -> (u8, u8, u8, u8) {
        (self.0, self.1, self.2, self.3)
    }

    /// Whether the four bytes are those of `t`.
    pub fn has_bytes(&self, t: (u8, u8, u8, u8)) -> (b: bool)
        ensures
            b == (self.bytes() == t),
    {
        self.0 == t.0 && self.1 == t.1 && self.2 == t.2 && self.3 == t.3
    }

    /// The first three bytes.
    pub open spec fn prefix(self) -> (u8, u8, u8) {
        (self.0, self.1, self.2)
    }

    /// Whether the first three bytes are those of `p`.
    pub fn has_prefix(&self, p: (u8, u8, u8)) -> (b: bool)
        ensures
            b == (self.prefix() == p),
    {
        self.0 == p.0 && self.1 == p.1 && self.2 == p.2
    }

    /// The kind of chunk that this tag names. Tags are compared byte for
    /// byte, so case matters.
    pub open spec fn kind(self) -> ChunkKind {
        if self.bytes() == SMAF_TAG {
            ChunkKind::Container
        } else if self.bytes() == METADATA_TAG {
            ChunkKind::Metadata
        } else if self.prefix() == MIDI_PREFIX {
            ChunkKind::MidiTrack
        } else if self.prefix() == WAVE_PREFIX {
            ChunkKind::WaveTrack
        } else {
            ChunkKind::Unknown
        }
    }

    /// The track number that a track chunk's tag carries in its last byte.
    pub open spec fn track_no(self) -> u8 {
        self.3
    }

    /// Decides what kind of chunk this tag names.
    pub fn classify(&self) -> (k: ChunkKind)
        ensures
            k == self.kind(),
    {
        if self.has_bytes(SMAF_TAG) {
            ChunkKind::Container
        } else if self.has_bytes(METADATA_TAG) {
            ChunkKind::Metadata
        } else if self.has_prefix(MIDI_PREFIX) {
            ChunkKind::MidiTrack
        } else if self.has_prefix(WAVE_PREFIX) {
            ChunkKind::WaveTrack
        } else {
            ChunkKind::Unknown
        }
    }
}

/// A chunk's header: its tag and the number of payload bytes that follow
/// the header. The header's own eight bytes are not counted.
#[derive(Debug, Clone, Copy, PartialEq, Eq, Structural)]
pub struct ChunkHeader {
    pub tag: Tag,
    pub declared_length: u32,
}

/// The tag written at `pos`.
pub open spec fn tag_at(bytes: Seq<u8>, pos: int) -> Tag {
    Tag(bytes[pos], bytes[pos + 1], bytes[pos + 2], bytes[pos + 3])
}

/// The payload length declared by the header at `pos`.
pub open spec fn length_at(bytes: Seq<u8>, pos: int) -> int {
    be32(bytes.subrange(pos + 4, pos + 8))
}

/// The header written at `pos`.
pub open spec fn header_at(bytes: Seq<u8>, pos: int) -> ChunkHeader {
    ChunkHeader { tag: tag_at(bytes, pos), declared_length: length_at(bytes, pos) as u32 }
}

/// A declared length is what a `u32` can hold.
pub proof fn lemma_length_at_bounds(bytes: Seq<u8>, pos: int)
    requires
        0 <= pos,
        pos + 8 <= bytes.len(),
    ensures
        0 <= length_at(bytes, pos) <= u32::MAX,
        header_at(bytes, pos).declared_length == length_at(bytes, pos),
{
}

/// Reads the header at the cursor and steps past it, or fails with
/// `UnexpectedEof`, leaving the cursor where it was, if fewer than eight
/// bytes remain. The declared length is not held against what remains: only
/// the caller knows the range that must enclose the payload.
pub fn read_chunk_header(cursor: &mut Cursor) -> (r: Result<ChunkHeader, ParseError>)
    ensures
        match r {
            Ok(h) => HEADER_LEN <= old(cursor)@.remaining() && h == header_at(
                old(cursor)@.buffer,
                old(cursor)@.pos,
            ) && final(cursor)@ == old(cursor)@.advance(HEADER_LEN as int),
            Err(e) => HEADER_LEN > old(cursor)@.remaining() && e == ParseError::UnexpectedEof
                && final(cursor)@ == old(cursor)@,
        },
{
    if cursor.remaining() < HEADER_LEN {
        return Err(ParseError::UnexpectedEof);
    }
    let tag = match cursor.read_exact(4) {
        Ok(t) => Tag(t[0], t[1], t[2], t[3]),
        Err(e) => {
            return Err(e);
        },
    };
    let declared_length = match cursor.read_u32_be() {
        Ok(n) => n,
        Err(e) => {
            return Err(e);
        },
    };
    Ok(ChunkHeader { tag, declared_length })
}

} // verus!
