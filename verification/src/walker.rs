//! The walk over the chunk tree: sibling after sibling within a range,
//! depth first into containers.

use crate::chunk::{header_at, read_chunk_header, ChunkKind, HEADER_LEN};
use crate::cursor::Cursor;
use crate::error::ParseError;
use crate::metadata::{decode_metadata, metadata_of, Metadata, MetadataView};
use crate::track::{
    decode_midi_track, decode_wave_track, midi_track_of, wave_track_of, ByteRange, MidiTrack,
    WaveTrack,
};
use vstd::prelude::*;

verus! {

/// The number of containers that may enclose a chunk. A container met below
/// that depth makes the walk fail rather than descend.
pub const MAX_DEPTH: usize = 32;

/// What a walk has found, in the order of the bytes: the first metadata
/// chunk's texts, the score tracks and the audio tracks.
pub struct Found {
    pub metadata: Option<MetadataView>,
    pub midi_tracks: Seq<MidiTrack>,
    pub wave_tracks: Seq<WaveTrack>,
}

impl Found {
    /// Nothing found.
    pub open spec fn empty() -> Found {
        Found { metadata: None, midi_tracks: Seq::empty(), wave_tracks: Seq::empty() }
    }

    /// What is found when `later` follows `self` in the bytes: the tracks of
    /// both in order, and the metadata that came first.
    pub open spec fn followed_by(self, later: Found) -> Found {
        Found {
            metadata: if self.metadata is Some {
                self.metadata
            } else {
                later.metadata
            },
            midi_tracks: self.midi_tracks + later.midi_tracks,
            wave_tracks: self.wave_tracks + later.wave_tracks,
        }
    }
}

/// `followed_by` does not care how a run of finds is grouped.
pub proof fn lemma_followed_by_associative(a: Found, b: Found, c: Found)
    ensures
        a.followed_by(b).followed_by(c) == a.followed_by(b.followed_by(c)),
{
    let left = a.followed_by(b).followed_by(c);
    let right = a.followed_by(b.followed_by(c));
    assert(left.midi_tracks =~= right.midi_tracks);
    assert(left.wave_tracks =~= right.wave_tracks);
}

/// `empty` is neutral for `followed_by`.
pub proof fn lemma_followed_by_empty(a: Found)
    ensures
        a.followed_by(Found::empty()) == a,
        Found::empty().followed_by(a) == a,
{
}

/// The result of a walk that first meets `head` and then `tail`: the first
/// failure, or both finds in order.
pub open spec fn in_turn(
    head: Result<Found, ParseError>,
    tail: Result<Found, ParseError>,
) -> Result<Found, ParseError> {
    match head {
        Err(e) => Err(e),
        Ok(first) => match tail {
            Err(e) => Err(e),
            Ok(rest) => Ok(first.followed_by(rest)),
        },
    }
}

/// What the chunk whose header stands at `pos` holds, when `depth` more
/// levels of containers may be entered and the chunk is known to fit in the
/// range that encloses it.
///
/// A container holds what the walk over its payload finds, one level
/// deeper; a metadata or track chunk holds its descriptor; a chunk of any
/// other type holds nothing.
pub open spec fn decode_chunk(bytes: Seq<u8>, pos: int, depth: nat) -> Result<Found, ParseError>
    decreases depth, 0int,
{
    let header = header_at(bytes, pos);
    let body = pos + HEADER_LEN;
    let next = body + header.declared_length;
    let payload = ByteRange { offset: body as usize, len: header.declared_length as usize };
    match header.tag.kind() {
        ChunkKind::Container => if depth == 0 {
            Err(ParseError::TooDeeplyNested)
        } else {
            decode_chunks(bytes, body, next, (depth - 1) as nat)
        },
        ChunkKind::Metadata => Ok(
            Found { metadata: Some(metadata_of(bytes.subrange(body, next))), ..Found::empty() },
        ),
        ChunkKind::MidiTrack => Ok(
            Found { midi_tracks: seq![midi_track_of(header, payload)], ..Found::empty() },
        ),
        ChunkKind::WaveTrack => Ok(
            Found { wave_tracks: seq![wave_track_of(header, payload)], ..Found::empty() },
        ),
        ChunkKind::Unknown => Ok(Found::empty()),
    }
}

/// What the chunks in `pos..end` of `bytes` hold, when `depth` more levels
/// of containers may be entered.
///
/// An empty range holds nothing. Otherwise the range must begin with a
/// whole header, and the payload that the header declares must end within
/// the range. The walk goes on behind the payload, whatever the chunk held
/// and however much of the payload its decoder looked at.
pub open spec fn decode_chunks(bytes: Seq<u8>, pos: int, end: int, depth: nat) -> Result<
    Found,
    ParseError,
>
    decreases depth, end - pos,
{
    if end - pos <= 0 {
        Ok(Found::empty())
    } else if end - pos < HEADER_LEN {
        Err(ParseError::UnexpectedEof)
    } else {
        let header = header_at(bytes, pos);
        let next = pos + HEADER_LEN + header.declared_length;
        if next > end {
            Err(ParseError::ChunkOverflow { tag: header.tag, offset: pos as usize })
        } else {
            in_turn(decode_chunk(bytes, pos, depth), decode_chunks(bytes, next, end, depth))
        }
    }
}

/// What a walk has gathered so far.
#[derive(Debug, Clone, PartialEq, Eq)]
pub struct Contents {
    pub metadata: Option<Metadata>,
    pub midi_tracks: Vec<MidiTrack>,
    pub wave_tracks: Vec<WaveTrack>,
}

impl View for Contents {
    type V = Found;

    open spec fn view(&self) -> Found {
        Found {
            metadata: match self.metadata {
                Some(m) => Some(m@),
                None => None,
            },
            midi_tracks: self.midi_tracks@,
            wave_tracks: self.wave_tracks@,
        }
    }
}

impl Contents {
    /// Nothing gathered yet.
    pub fn new() -> (c: Contents)
        ensures
            c@ == Found::empty(),
    {
        Contents { metadata: None, midi_tracks: Vec::new(), wave_tracks: Vec::new() }
    }
}

/// Walks the chunks in the cursor's range and adds what they hold to
/// `found`, entering at most `depth` levels of containers.
///
/// On success `found` has grown by exactly what the range holds, in the
/// order of the bytes. On failure the error is that of the first chunk that
/// is cut short, overflows its range or lies too deep, and `found` is left
/// in no particular state.
pub fn walk(range: Cursor, depth: usize, found: &mut Contents) -> (r: Result<(), ParseError>)
    ensures
        match decode_chunks(range@.buffer, range@.pos, range@.end, depth as nat) {
            Ok(f) => r is Ok && final(found)@ == old(found)@.followed_by(f),
            Err(e) => r == Err::<(), ParseError>(e),
        },
    decreases depth, range@.remaining(),
{
    let mut cursor = range;
    let ghost bytes = cursor@.buffer;
    let ghost end = cursor@.end;
    let ghost goal = decode_chunks(bytes, cursor@.pos, end, depth as nat);
    let ghost mut seen = Found::empty();
    proof {
        lemma_followed_by_empty(found@);
        if let Ok(f) = goal {
            lemma_followed_by_empty(f);
        }
    }
    while cursor.remaining() > 0
        invariant
            cursor@.buffer == bytes,
            cursor@.end == end,
            found@ == old(found)@.followed_by(seen),
            goal == decode_chunks(range@.buffer, range@.pos, range@.end, depth as nat),
            goal == in_turn(Ok(seen), decode_chunks(bytes, cursor@.pos, end, depth as nat)),
        decreases cursor@.remaining(),
    {
        proof {
            reveal_with_fuel(decode_chunks, 2);
        }
        let offset = cursor.position();
        let header = match read_chunk_header(&mut cursor) {
            Ok(h) => h,
            Err(e) => {
                return Err(e);
            },
        };
        let body = cursor.position();
        let len = header.declared_length as usize;
        // Stepping past the whole payload here, before anything looks at it,
        // is what keeps the walk in step whatever a decoder reads.
        let payload = match cursor.take(len) {
            Ok(p) => p,
            Err(_) => {
                return Err(ParseError::ChunkOverflow { tag: header.tag, offset });
            },
        };
        let extent = ByteRange { offset: body, len };
        let ghost here: Found;
        match header.tag.classify() {
            ChunkKind::Container => {
                if depth == 0 {
                    return Err(ParseError::TooDeeplyNested);
                }
                match walk(payload, depth - 1, found) {
                    Ok(_) => {},
                    Err(e) => {
                        return Err(e);
                    },
                }
                proof {
                    here = decode_chunks(bytes, body as int, body + len, (depth - 1) as nat)->Ok_0;
                    lemma_followed_by_associative(old(found)@, seen, here);
                }
            },
            ChunkKind::Metadata => {
                if found.metadata.is_none() {
                    found.metadata = Some(decode_metadata(payload.rest()));
                }
                proof {
                    here = Found {
                        metadata: Some(metadata_of(payload@.peek(len as int))),
                        ..Found::empty()
                    };
                }
            },
            ChunkKind::MidiTrack => {
                found.midi_tracks.push(decode_midi_track(&header, extent));
                proof {
                    here = Found {
                        midi_tracks: seq![midi_track_of(header, extent)],
                        ..Found::empty()
                    };
                }
            },
            ChunkKind::WaveTrack => {
                found.wave_tracks.push(decode_wave_track(&header, extent));
                proof {
                    here = Found {
                        wave_tracks: seq![wave_track_of(header, extent)],
                        ..Found::empty()
                    };
                }
            },
            ChunkKind::Unknown => {
                proof {
                    here = Found::empty();
                }
            },
        }
        proof {
            let grown = old(found)@.followed_by(seen.followed_by(here));
            assert(found@.midi_tracks =~= grown.midi_tracks);
            assert(found@.wave_tracks =~= grown.wave_tracks);
            if let Ok(rest) = decode_chunks(bytes, cursor@.pos, end, depth as nat) {
                lemma_followed_by_associative(seen, here, rest);
            }
            seen = seen.followed_by(here);
        }
    }
    Ok(())
}

} // verus!
