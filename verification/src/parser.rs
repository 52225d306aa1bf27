//! The decoder's entry point: the signature check, the walk over the root
//! range, and the assembly of what was found.

use crate::chunk::{tag_at, Tag, SMAF_TAG};
use crate::cursor::Cursor;
use crate::error::ParseError;
use crate::metadata::{Metadata, MetadataView};
use crate::track::{MidiTrack, WaveTrack};
use crate::walker::{decode_chunks, lemma_followed_by_empty, walk, Contents, Found, MAX_DEPTH};
use vstd::prelude::*;

verus! {

/// The number of bytes in the signature that opens a file.
pub const SIGNATURE_LEN: usize = 4;

/// What a `FileInfo` stands for.
pub struct FileInfoView {
    pub metadata: MetadataView,
    pub midi_tracks: Seq<MidiTrack>,
    pub wave_tracks: Seq<WaveTrack>,
}

/// Everything that a file holds: its descriptive texts, its score tracks and
/// its audio tracks, the tracks in the order in which their chunks stand in
/// the file. The track descriptors refer to the decoded buffer by offset;
/// whoever wants a track's bytes keeps the buffer.
#[derive(Debug, Clone, PartialEq, Eq)]
pub struct FileInfo {
    pub metadata: Metadata,
    pub midi_tracks: Vec<MidiTrack>,
    pub wave_tracks: Vec<WaveTrack>,
}

impl View for FileInfo {
    type V = FileInfoView;

    open spec fn view(&self) -> FileInfoView {
        FileInfoView {
            metadata: self.metadata@,
            midi_tracks: self.midi_tracks@,
            wave_tracks: self.wave_tracks@,
        }
    }
}

/// Whether `bytes` opens with the signature `MMMD`.
pub open spec fn has_signature(bytes: Seq<u8>) -> bool {
    bytes.len() >= SIGNATURE_LEN && tag_at(bytes, 0).bytes() == SMAF_TAG
}

/// The file description that a finished walk amounts to. A file without a
/// metadata chunk has empty texts.
pub open spec fn assemble(found: Found) -> FileInfoView {
    FileInfoView {
        metadata: match found.metadata {
            Some(m) => m,
            None => MetadataView::empty(),
        },
        midi_tracks: found.midi_tracks,
        wave_tracks: found.wave_tracks,
    }
}

/// What decoding `bytes` yields: `NotFoundSmafHeader` unless the signature
/// is there, and otherwise what the walk over the bytes behind the signature
/// finds, or the failure that stops it.
pub open spec fn parse_spec(bytes: Seq<u8>) -> Result<FileInfoView, ParseError> {
    if !has_signature(bytes) {
        Err(ParseError::NotFoundSmafHeader)
    } else {
        match decode_chunks(bytes, SIGNATURE_LEN as int, bytes.len() as int, MAX_DEPTH as nat) {
            Ok(found) => Ok(assemble(found)),
            Err(e) => Err(e),
        }
    }
}

/// Whether `r` is what `parse` returns on `bytes`: the description that
/// `parse_spec` gives, or its failure.
pub open spec fn is_parse_of(bytes: Seq<u8>, r: Result<FileInfo, ParseError>) -> bool {
    match parse_spec(bytes) {
        Ok(v) => r matches Ok(info) && info@ == v,
        Err(e) => r == Err::<FileInfo, ParseError>(e),
    }
}

/// Decodes a whole file held in memory. The result is all or nothing: a
/// full description of the file, or the reason why the bytes were rejected.
pub fn parse(bytes: &[u8]) -> (r: Result<FileInfo, ParseError>)
    ensures
        match parse_spec(bytes@) {
            Ok(v) => r matches Ok(info) && info@ == v,
            Err(e) => r == Err::<FileInfo, ParseError>(e),
        },
{
    let mut cursor = Cursor::new(bytes);
    let signature = match cursor.read_exact(SIGNATURE_LEN) {
        Ok(s) => s,
        Err(_) => {
            return Err(ParseError::NotFoundSmafHeader);
        },
    };
    if !Tag(signature[0], signature[1], signature[2], signature[3]).has_bytes(SMAF_TAG) {
        return Err(ParseError::NotFoundSmafHeader);
    }
    let mut found = Contents::new();
    match walk(cursor, MAX_DEPTH, &mut found) {
        Ok(_) => {},
        Err(e) => {
            return Err(e);
        },
    }
    proof {
        let end = bytes@.len() as int;
        lemma_followed_by_empty(decode_chunks(bytes@, 4, end, MAX_DEPTH as nat)->Ok_0);
    }
    let metadata = match found.metadata {
        Some(m) => m,
        None => Metadata::empty(),
    };
    Ok(FileInfo { metadata, midi_tracks: found.midi_tracks, wave_tracks: found.wave_tracks })
}

} // verus!
