//! Track descriptors. A descriptor names a track and says where in the
//! buffer its payload lies; the payload's bytes are never copied.

use crate::chunk::ChunkHeader;
use crate::cursor::Cursor;
use crate::error::ParseError;
use vstd::prelude::*;

verus! {

/// A run of `len` bytes that starts at `offset` in the decoded buffer.
#[derive(Debug, Clone, Copy, PartialEq, Eq, Structural)]
pub struct ByteRange {
    pub offset: usize,
    pub len: usize,
}

impl ByteRange {
    /// Whether the range lies within `bytes`.
    pub open spec fn fits(self, bytes: Seq<u8>) -> bool {
        self.offset + self.len <= bytes.len()
    }

    /// The bytes of `bytes` that the range covers.
    pub open spec fn of(self, bytes: Seq<u8>) -> Seq<u8> {
        bytes.subrange(self.offset as int, self.offset + self.len)
    }

    /// Borrows the bytes that the range covers, or fails with `OutOfBounds`
    /// if `bytes` is too short to hold the range.
    pub fn resolve<'a>(&self, bytes: &'a [u8]) -> (r: Result<&'a [u8], ParseError>)
        ensures
            match r {
                Ok(s) => self.fits(bytes@) && s@ == self.of(bytes@),
                Err(e) => !self.fits(bytes@) && e == ParseError::OutOfBounds,
            },
    {
        Cursor::new(bytes).slice(self.offset, self.len)
    }
}

/// A score track: the number that its chunk gives it, the payload length
/// that its chunk declares, and where the payload lies. Numbers may repeat.
#[derive(Debug, Clone, Copy, PartialEq, Eq, Structural)]
pub struct MidiTrack {
    pub track_no: u8,
    pub size: u32,
    pub payload: ByteRange,
}

/// An audio track: the number that its chunk gives it, the payload length
/// that its chunk declares, and where the payload lies. Numbers may repeat.
#[derive(Debug, Clone, Copy, PartialEq, Eq, Structural)]
pub struct WaveTrack {
    pub track_no: u8,
    pub size: u32,
    pub payload: ByteRange,
}

/// The descriptor of the score track whose chunk has the header `header`
/// and the payload range `payload`.
pub open spec fn midi_track_of(header: ChunkHeader, payload: ByteRange) -> MidiTrack {
    MidiTrack { track_no: header.tag.track_no(), size: header.declared_length, payload }
}

/// The descriptor of the audio track whose chunk has the header `header`
/// and the payload range `payload`.
pub open spec fn wave_track_of(header: ChunkHeader, payload: ByteRange) -> WaveTrack {
    WaveTrack { track_no: header.tag.track_no(), size: header.declared_length, payload }
}

/// Describes a score track from its chunk's header and payload range. The
/// payload itself is not looked at.
pub fn decode_midi_track(header: &ChunkHeader, payload: ByteRange) -> (t: MidiTrack)
    ensures
        t == midi_track_of(*header, payload),
{
    MidiTrack { track_no: header.tag.3, size: header.declared_length, payload }
}

/// Describes an audio track from its chunk's header and payload range. The
/// payload itself is not looked at.
pub fn decode_wave_track(header: &ChunkHeader, payload: ByteRange) -> (t: WaveTrack)
    ensures
        t == wave_track_of(*header, payload),
{
    WaveTrack { track_no: header.tag.3, size: header.declared_length, payload }
}

} // verus!
