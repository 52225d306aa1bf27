//! What holds of the decoder on every input.

use crate::chunk::{
    header_at, lemma_length_at_bounds, length_at, tag_at, ChunkKind, Tag, HEADER_LEN,
};
use crate::cursor::be16;
use crate::encoding::{
    chunks_in, encode_all, encode_file, file_well_formed, holdings_of, insert_chunk,
    lemma_accepted_run_is_encoded, lemma_run_holds_its_count, lemma_run_reads_back,
    lemma_unknown_chunk_holds_nothing, midi_count_of, midi_data, resolve, wave_count_of,
    wave_data, Chunk, Holdings,
};
use crate::error::ParseError;
use crate::metadata::{
    encode_entries, encode_entry, entries_fit, find_field, first_tagged, metadata_of, text_len,
    text_of, Entry, MetadataView, AUTHOR_TAG, COPYRIGHT_TAG, ENTRY_HEADER_LEN, TITLE_TAG,
};
use crate::parser::{
    assemble, has_signature, is_parse_of, parse_spec, FileInfo, FileInfoView, SIGNATURE_LEN,
};
use crate::walker::{decode_chunk, decode_chunks, Found, MAX_DEPTH};
use vstd::prelude::*;

verus! {

/// A walk fails in one of three ways only: a header is cut short, a payload
/// overflows its range, or a container lies too deep.
pub proof fn walk_failures(bytes: Seq<u8>, pos: int, end: int, depth: nat)
    ensures
        decode_chunks(bytes, pos, end, depth) matches Err(e) ==> e == ParseError::UnexpectedEof
            || e is ChunkOverflow || e == ParseError::TooDeeplyNested,
    decreases depth, end - pos,
{
    if end - pos >= HEADER_LEN {
        let header = header_at(bytes, pos);
        let body = pos + HEADER_LEN;
        let next = body + header.declared_length;
        if next <= end {
            if header.tag.kind() == ChunkKind::Container && depth > 0 {
                walk_failures(bytes, body, next, (depth - 1) as nat);
            }
            walk_failures(bytes, next, end, depth);
            assert(decode_chunk(bytes, pos, depth) matches Err(e) ==> e
                == ParseError::TooDeeplyNested || decode_chunk(bytes, pos, depth)
                == decode_chunks(bytes, body, next, (depth - 1) as nat));
        }
    }
}

/// A buffer is rejected for want of the signature exactly when it does not
/// open with it; whatever else is wrong with the bytes behind a signature is
/// reported as another failure.
pub proof fn missing_signature_is_the_only_header_failure(bytes: Seq<u8>)
    ensures
        parse_spec(bytes) == Err::<FileInfoView, ParseError>(ParseError::NotFoundSmafHeader)
            <==> !has_signature(bytes),
        parse_spec(bytes) matches Err(e) ==> e != ParseError::OutOfBounds,
{
    walk_failures(bytes, SIGNATURE_LEN as int, bytes.len() as int, MAX_DEPTH as nat);
}

/// Decoding is a function of the bytes: two runs over the same buffer give
/// the same description, field for field, or the same failure.
pub proof fn parse_is_deterministic(
    bytes: Seq<u8>,
    first: Result<FileInfo, ParseError>,
    second: Result<FileInfo, ParseError>,
)
    requires
        is_parse_of(bytes, first),
        is_parse_of(bytes, second),
    ensures
        match (first, second) {
            (Ok(a), Ok(b)) => a@ == b@,
            (Err(a), Err(b)) => a == b,
            _ => false,
        },
{
}

/// A field's text ends at its first zero byte: no byte before `text_len` is
/// zero, and `text_len` is the end of the data or the place of a zero byte.
pub proof fn text_ends_at_the_first_zero_byte(data: Seq<u8>)
    ensures
        text_len(data) <= data.len(),
        forall|i: int| 0 <= i < text_len(data) ==> data[i] != 0,
        text_len(data) == data.len() || data[text_len(data) as int] == 0,
    decreases data.len(),
{
    if data.len() > 0 && data[0] != 0 {
        let rest = data.drop_first();
        text_ends_at_the_first_zero_byte(rest);
        assert forall|i: int| 0 <= i < text_len(data) implies data[i] != 0 by {
            if i > 0 {
                assert(data[i] == rest[i - 1]);
            }
        }
        if text_len(data) < data.len() {
            assert(data[text_len(data) as int] == rest[text_len(rest) as int]);
        }
    }
}

/// Entries that were written are the entries that are read: in a payload
/// that ends with a run of entries, the field found for a tag from the start
/// of the run on is the data of the first entry of that tag.
pub proof fn entries_read_back(payload: Seq<u8>, pos: int, entries: Seq<Entry>, tag: (u8, u8))
    requires
        entries_fit(entries),
        0 <= pos <= payload.len(),
        payload.subrange(pos, payload.len() as int) == encode_entries(entries),
    ensures
        find_field(payload, pos, tag) == first_tagged(entries, tag),
    decreases entries.len(),
{
    if entries.len() > 0 {
        let first = entries[0];
        let rest = entries.drop_first();
        let len = first.data.len() as int;
        let tail = payload.subrange(pos, payload.len() as int);
        let data = pos + ENTRY_HEADER_LEN;
        assert(forall|i: int| 0 <= i < tail.len() ==> payload[pos + i] == tail[i]);
        assert(payload[pos] == tail[0] && payload[pos + 1] == tail[1]);
        let field = payload.subrange(pos + 2, pos + 4);
        assert(field =~= seq![(len / 0x100) as u8, (len % 0x100) as u8]) by {
            assert(payload[pos + 2] == tail[2] && payload[pos + 3] == tail[3]);
        }
        assert(payload.subrange(data, data + len) =~= first.data) by {
            assert forall|i: int| 0 <= i < len implies payload[data + i] == first.data[i] by {
                assert(payload[pos + (ENTRY_HEADER_LEN + i)] == tail[ENTRY_HEADER_LEN + i]);
            }
        }
        assert(payload.subrange(data + len, payload.len() as int) =~= encode_entries(rest)) by {
            assert forall|i: int| 0 <= i < encode_entries(rest).len() implies payload[data + len
                + i] == encode_entries(rest)[i] by {
                assert(payload[pos + (ENTRY_HEADER_LEN + len + i)] == tail[ENTRY_HEADER_LEN + len
                    + i]);
            }
        }
        entries_read_back(payload, data + len, rest, tag);
    } else {
        assert(payload.subrange(pos, payload.len() as int).len() == 0);
    }
}

/// The text that a run of entries gives for a tag: that of the first entry
/// of the tag, and nothing if there is none.
pub open spec fn tagged_text(entries: Seq<Entry>, tag: (u8, u8)) -> Seq<char> {
    match first_tagged(entries, tag) {
        Some(data) => text_of(data),
        None => Seq::empty(),
    }
}

/// Metadata that was written is the metadata that is read: a payload made
/// of entries gives, for title, author and copyright, the text of the first
/// entry of each tag, whatever other entries stand around them.
pub proof fn metadata_reads_back(entries: Seq<Entry>)
    requires
        entries_fit(entries),
    ensures
        metadata_of(encode_entries(entries)) == (MetadataView {
            song_title: tagged_text(entries, TITLE_TAG),
            author: tagged_text(entries, AUTHOR_TAG),
            copyright: tagged_text(entries, COPYRIGHT_TAG),
        }),
{
    let payload = encode_entries(entries);
    assert(payload.subrange(0, payload.len() as int) =~= payload);
    entries_read_back(payload, 0, entries, TITLE_TAG);
    entries_read_back(payload, 0, entries, AUTHOR_TAG);
    entries_read_back(payload, 0, entries, COPYRIGHT_TAG);
}

/// Whether the description `info` of the buffer `bytes` says what
/// `holdings` says: the same texts, empty ones where there is no metadata,
/// and track for track the same number, the same payload bytes, and their
/// length as the size.
pub open spec fn describes(bytes: Seq<u8>, info: FileInfoView, holdings: Holdings) -> bool {
    &&& info.metadata == match holdings.metadata {
        Some(m) => m,
        None => MetadataView::empty(),
    }
    &&& info.midi_tracks.len() == holdings.midi_tracks.len()
    &&& info.wave_tracks.len() == holdings.wave_tracks.len()
    &&& forall|i: int|
        0 <= i < info.midi_tracks.len() ==> {
            let t = #[trigger] info.midi_tracks[i];
            &&& t.payload.fits(bytes)
            &&& t.size == t.payload.len
            &&& midi_data(bytes, t) == holdings.midi_tracks[i]
        }
    &&& forall|i: int|
        0 <= i < info.wave_tracks.len() ==> {
            let t = #[trigger] info.wave_tracks[i];
            &&& t.payload.fits(bytes)
            &&& t.size == t.payload.len
            &&& wave_data(bytes, t) == holdings.wave_tracks[i]
        }
}

/// Decoding inverts encoding: the bytes of a well-formed tree of chunks are
/// accepted, and the description says exactly what the tree holds.
pub proof fn encoded_file_reads_back(chunks: Seq<Chunk>)
    requires
        file_well_formed(chunks),
    ensures
        parse_spec(encode_file(chunks)) matches Ok(info) && describes(
            encode_file(chunks),
            info,
            holdings_of(chunks),
        ),
{
    let bytes = encode_file(chunks);
    let body = encode_all(chunks);
    assert(bytes.subrange(4, 4 + body.len() as int) =~= body);
    lemma_run_reads_back(bytes, 4, chunks, MAX_DEPTH as nat);
    let found = decode_chunks(bytes, 4, bytes.len() as int, MAX_DEPTH as nat)->Ok_0;
    let held = resolve(bytes, found);
    assert forall|i: int| 0 <= i < found.midi_tracks.len() implies midi_data(
        bytes,
        #[trigger] found.midi_tracks[i],
    ) == holdings_of(chunks).midi_tracks[i] by {
        assert(held.midi_tracks[i] == midi_data(bytes, found.midi_tracks[i]));
    }
    assert forall|i: int| 0 <= i < found.wave_tracks.len() implies wave_data(
        bytes,
        #[trigger] found.wave_tracks[i],
    ) == holdings_of(chunks).wave_tracks[i] by {
        assert(held.wave_tracks[i] == wave_data(bytes, found.wave_tracks[i]));
    }
}

/// A file that a conforming encoder wrote is accepted, and its description
/// lists as many score tracks and as many audio tracks as the file has
/// chunks of each kind, at whatever depth they lie.
pub proof fn track_counts_match_chunks(chunks: Seq<Chunk>)
    requires
        file_well_formed(chunks),
    ensures
        parse_spec(encode_file(chunks)) matches Ok(info) && info.midi_tracks.len()
            == midi_count_of(chunks) && info.wave_tracks.len() == wave_count_of(chunks),
{
    encoded_file_reads_back(chunks);
    lemma_run_holds_its_count(chunks);
}

/// Tracks come out in the order in which their chunks were written: the
/// i-th score track of the description is the i-th score track chunk met when
/// the file is read from front to back, whatever containers lie around it,
/// and likewise for audio tracks.
pub proof fn tracks_keep_file_order(chunks: Seq<Chunk>)
    requires
        file_well_formed(chunks),
    ensures
        parse_spec(encode_file(chunks)) matches Ok(info) && {
            let bytes = encode_file(chunks);
            let written = holdings_of(chunks);
            &&& info.midi_tracks.len() == written.midi_tracks.len()
            &&& info.wave_tracks.len() == written.wave_tracks.len()
            &&& forall|i: int|
                0 <= i < info.midi_tracks.len() ==> midi_data(bytes, #[trigger] info.midi_tracks[i])
                    == written.midi_tracks[i]
            &&& forall|i: int|
                0 <= i < info.wave_tracks.len() ==> wave_data(bytes, #[trigger] info.wave_tracks[i])
                    == written.wave_tracks[i]
        },
{
    encoded_file_reads_back(chunks);
}

/// The chunks at the root of a buffer, read as trees.
pub open spec fn root_chunks(bytes: Seq<u8>) -> Seq<Chunk> {
    chunks_in(bytes, SIGNATURE_LEN as int, bytes.len() as int, MAX_DEPTH as nat)
}

/// Whatever is accepted is a well-formed file: the bytes of an accepted
/// buffer are the encoding of the tree of chunks that is read from them. So
/// what holds of every well-formed tree holds of every accepted buffer.
pub proof fn accepted_file_is_encoded(bytes: Seq<u8>)
    requires
        bytes.len() <= usize::MAX,
        parse_spec(bytes) is Ok,
    ensures
        ({
            let chunks = root_chunks(bytes);
            file_well_formed(chunks) && encode_file(chunks) == bytes
        }),
{
    lemma_accepted_run_is_encoded(bytes, 4, bytes.len() as int, MAX_DEPTH as nat);
}

/// Success is owed to well-formed files and to nothing else: a buffer is
/// accepted exactly when it is the encoding of a well-formed tree of chunks.
pub proof fn accepted_means_well_formed(bytes: Seq<u8>)
    requires
        bytes.len() <= usize::MAX,
    ensures
        parse_spec(bytes) is Ok <==> exists|chunks: Seq<Chunk>|
            file_well_formed(chunks) && #[trigger] encode_file(chunks) == bytes,
{
    if parse_spec(bytes) is Ok {
        accepted_file_is_encoded(bytes);
        assert(encode_file(root_chunks(bytes)) == bytes);
    }
    if exists|chunks: Seq<Chunk>|
        file_well_formed(chunks) && #[trigger] encode_file(chunks) == bytes {
        let chunks = choose|chunks: Seq<Chunk>|
            file_well_formed(chunks) && #[trigger] encode_file(chunks) == bytes;
        encoded_file_reads_back(chunks);
    }
}

/// The description of an accepted buffer says what the chunks in it hold:
/// the texts of the first metadata chunk, and every score and audio track at
/// any depth, each with its number and its bytes, in the order of the bytes.
pub proof fn description_matches_the_chunks(bytes: Seq<u8>)
    requires
        bytes.len() <= usize::MAX,
    ensures
        parse_spec(bytes) matches Ok(info) ==> {
            &&& describes(bytes, info, holdings_of(root_chunks(bytes)))
            &&& info.midi_tracks.len() == midi_count_of(root_chunks(bytes))
            &&& info.wave_tracks.len() == wave_count_of(root_chunks(bytes))
        },
{
    if parse_spec(bytes) is Ok {
        accepted_file_is_encoded(bytes);
        encoded_file_reads_back(root_chunks(bytes));
        lemma_run_holds_its_count(root_chunks(bytes));
    }
}

/// Whether every track among the finds has its payload within `lo..hi` and
/// reports that payload's length as its size.
pub open spec fn tracks_within(found: Found, lo: int, hi: int) -> bool {
    &&& forall|i: int|
        0 <= i < found.midi_tracks.len() ==> {
            let t = #[trigger] found.midi_tracks[i];
            lo <= t.payload.offset && t.payload.offset + t.payload.len <= hi && t.size
                == t.payload.len
        }
    &&& forall|i: int|
        0 <= i < found.wave_tracks.len() ==> {
            let t = #[trigger] found.wave_tracks[i];
            lo <= t.payload.offset && t.payload.offset + t.payload.len <= hi && t.size
                == t.payload.len
        }
}

/// A walk never reaches outside its range: every track that it finds has
/// its payload within the range, behind its chunk's header, and a chunk in a
/// container has its payload within the container's payload.
pub proof fn walk_stays_in_its_range(bytes: Seq<u8>, pos: int, end: int, depth: nat)
    requires
        0 <= pos <= end <= bytes.len() <= usize::MAX,
    ensures
        decode_chunks(bytes, pos, end, depth) matches Ok(found) ==> tracks_within(
            found,
            pos + HEADER_LEN,
            end,
        ),
    decreases depth, end - pos,
{
    if decode_chunks(bytes, pos, end, depth) is Ok && end - pos > 0 {
        let header = header_at(bytes, pos);
        let body = pos + HEADER_LEN;
        let next = body + header.declared_length;
        let here = decode_chunk(bytes, pos, depth)->Ok_0;
        let rest = decode_chunks(bytes, next, end, depth)->Ok_0;
        if header.tag.kind() == ChunkKind::Container {
            walk_stays_in_its_range(bytes, body, next, (depth - 1) as nat);
        }
        assert(tracks_within(here, body, next));
        walk_stays_in_its_range(bytes, next, end, depth);
        assert(tracks_within(here.followed_by(rest), body, end));
    }
}

/// Every track of an accepted file lies where its descriptor says: the
/// payload range is within the buffer, behind the signature and the track's
/// own header, and exactly as long as the size that the descriptor reports.
pub proof fn tracks_lie_in_the_buffer(bytes: Seq<u8>)
    requires
        bytes.len() <= usize::MAX,
    ensures
        parse_spec(bytes) matches Ok(info) ==> {
            &&& forall|i: int|
                0 <= i < info.midi_tracks.len() ==> {
                    let t = #[trigger] info.midi_tracks[i];
                    &&& SIGNATURE_LEN + HEADER_LEN <= t.payload.offset
                    &&& t.payload.fits(bytes)
                    &&& t.size == t.payload.len
                }
            &&& forall|i: int|
                0 <= i < info.wave_tracks.len() ==> {
                    let t = #[trigger] info.wave_tracks[i];
                    &&& SIGNATURE_LEN + HEADER_LEN <= t.payload.offset
                    &&& t.payload.fits(bytes)
                    &&& t.size == t.payload.len
                }
        },
{
    if parse_spec(bytes) is Ok {
        walk_stays_in_its_range(bytes, 4, bytes.len() as int, MAX_DEPTH as nat);
    }
}

/// Whether two descriptions, each of its own buffer, say the same: the same
/// texts, and track for track the same number, the same size and the same
/// payload bytes. Where the payloads lie in their buffers is not compared.
pub open spec fn same_content(
    bytes_a: Seq<u8>,
    a: FileInfoView,
    bytes_b: Seq<u8>,
    b: FileInfoView,
) -> bool {
    &&& a.metadata == b.metadata
    &&& a.midi_tracks.len() == b.midi_tracks.len()
    &&& a.wave_tracks.len() == b.wave_tracks.len()
    &&& forall|i: int|
        0 <= i < a.midi_tracks.len() ==> {
            &&& (#[trigger] a.midi_tracks[i]).size == b.midi_tracks[i].size
            &&& midi_data(bytes_a, a.midi_tracks[i]) == midi_data(bytes_b, b.midi_tracks[i])
        }
    &&& forall|i: int|
        0 <= i < a.wave_tracks.len() ==> {
            &&& (#[trigger] a.wave_tracks[i]).size == b.wave_tracks[i].size
            &&& wave_data(bytes_a, a.wave_tracks[i]) == wave_data(bytes_b, b.wave_tracks[i])
        }
}

/// Chunks of unknown types are tolerated: put one anywhere among the chunks
/// of a file, at the root or inside any container, and the file still
/// decodes, to the same texts and, track for track, to the same numbers,
/// sizes and payload bytes.
pub proof fn unknown_chunks_are_tolerated(
    chunks: Seq<Chunk>,
    path: Seq<int>,
    tag: Tag,
    payload: Seq<u8>,
)
    requires
        file_well_formed(chunks),
        file_well_formed(insert_chunk(chunks, path, Chunk::Other(tag, payload))),
    ensures
        ({
            let with_extra = insert_chunk(chunks, path, Chunk::Other(tag, payload));
            &&& parse_spec(encode_file(chunks)) matches Ok(before)
            &&& parse_spec(encode_file(with_extra)) matches Ok(after)
            &&& same_content(encode_file(chunks), before, encode_file(with_extra), after)
        }),
{
    let with_extra = insert_chunk(chunks, path, Chunk::Other(tag, payload));
    lemma_unknown_chunk_holds_nothing(chunks, path, tag, payload);
    encoded_file_reads_back(chunks);
    encoded_file_reads_back(with_extra);
    let before = parse_spec(encode_file(chunks))->Ok_0;
    let after = parse_spec(encode_file(with_extra))->Ok_0;
    assert forall|i: int| 0 <= i < before.midi_tracks.len() implies (
    #[trigger] before.midi_tracks[i]).size == after.midi_tracks[i].size by {
        assert(midi_data(encode_file(chunks), before.midi_tracks[i]).data.len()
            == midi_data(encode_file(with_extra), after.midi_tracks[i]).data.len());
    }
    assert forall|i: int| 0 <= i < before.wave_tracks.len() implies (
    #[trigger] before.wave_tracks[i]).size == after.wave_tracks[i].size by {
        assert(wave_data(encode_file(chunks), before.wave_tracks[i]).data.len()
            == wave_data(encode_file(with_extra), after.wave_tracks[i]).data.len());
    }
}

/// The offset just behind the chunk whose header stands at `pos`.
pub open spec fn chunk_end(bytes: Seq<u8>, pos: int) -> int {
    pos + HEADER_LEN + length_at(bytes, pos)
}

/// Whether `k` lies strictly inside a chunk of the run of siblings that
/// starts at `pos`: stepping from chunk to chunk by the declared lengths
/// never lands on `k`.
pub open spec fn splits_chunk(bytes: Seq<u8>, pos: int, k: int) -> bool
    decreases k - pos,
{
    pos < k && (k - pos < HEADER_LEN || chunk_end(bytes, pos) > k || splits_chunk(
        bytes,
        chunk_end(bytes, pos),
        k,
    ))
}

/// The failure that a walk from `pos` meets when its range ends at a `k`
/// that splits a chunk: `UnexpectedEof` if the cut falls in the chunk's
/// header, and otherwise `ChunkOverflow` with the chunk's tag and offset.
pub open spec fn cut_failure(bytes: Seq<u8>, pos: int, k: int) -> ParseError
    decreases k - pos,
{
    if k - pos < HEADER_LEN {
        ParseError::UnexpectedEof
    } else if chunk_end(bytes, pos) > k {
        ParseError::ChunkOverflow { tag: tag_at(bytes, pos), offset: pos as usize }
    } else {
        cut_failure(bytes, chunk_end(bytes, pos), k)
    }
}

/// Whether a chunk whose header stands at `at` lies in the run of siblings
/// `pos..end`, among them or at any depth inside a container among them.
pub open spec fn chunk_lies_in(bytes: Seq<u8>, pos: int, end: int, at: int) -> bool
    decreases end - pos,
{
    pos + HEADER_LEN <= end && chunk_end(bytes, pos) <= end && (at == pos || (tag_at(
        bytes,
        pos,
    ).kind() == ChunkKind::Container && chunk_lies_in(
        bytes,
        pos + HEADER_LEN,
        chunk_end(bytes, pos),
        at,
    )) || chunk_lies_in(bytes, chunk_end(bytes, pos), end, at))
}

/// A walk reads nothing but the bytes of its range: over two buffers that
/// agree there it comes to the same end.
pub proof fn walk_reads_its_range_only(a: Seq<u8>, b: Seq<u8>, pos: int, end: int, depth: nat)
    requires
        0 <= pos,
        end <= a.len(),
        end <= b.len(),
        forall|i: int| pos <= i < end ==> a[i] == b[i],
    ensures
        decode_chunks(a, pos, end, depth) == decode_chunks(b, pos, end, depth),
    decreases depth, end - pos,
{
    if end - pos >= HEADER_LEN {
        let header = header_at(a, pos);
        let body = pos + HEADER_LEN;
        let next = body + header.declared_length;
        if next <= end {
            assert(a.subrange(body, next) =~= b.subrange(body, next));
            if header.tag.kind() == ChunkKind::Container && depth > 0 {
                walk_reads_its_range_only(a, b, body, next, (depth - 1) as nat);
            }
            assert(decode_chunk(a, pos, depth) == decode_chunk(b, pos, depth));
            walk_reads_its_range_only(a, b, next, end, depth);
        }
    }
}

/// The failure at a cut is a header cut short or a payload that overflows.
pub proof fn lemma_cut_failure_kinds(bytes: Seq<u8>, pos: int, k: int)
    ensures
        cut_failure(bytes, pos, k) == ParseError::UnexpectedEof || cut_failure(bytes, pos, k)
            is ChunkOverflow,
    decreases k - pos,
{
    if k - pos >= HEADER_LEN && chunk_end(bytes, pos) <= k {
        lemma_cut_failure_kinds(bytes, chunk_end(bytes, pos), k);
    }
}

/// A walk whose range ends inside a chunk fails. If the walk over the
/// longer range `pos..end` succeeds, it fails at the chunk that is cut.
pub proof fn lemma_cut_run_fails(bytes: Seq<u8>, pos: int, end: int, k: int, depth: nat)
    requires
        0 <= pos <= k <= end <= bytes.len(),
        splits_chunk(bytes, pos, k),
    ensures
        decode_chunks(bytes, pos, k, depth) is Err,
        decode_chunks(bytes, pos, end, depth) is Ok ==> decode_chunks(bytes, pos, k, depth)
            == Err::<Found, ParseError>(cut_failure(bytes, pos, k)),
    decreases k - pos,
{
    if k - pos >= HEADER_LEN {
        lemma_length_at_bounds(bytes, pos);
        let next = chunk_end(bytes, pos);
        if next <= k {
            lemma_cut_run_fails(bytes, next, end, k, depth);
        }
    }
}

/// A chunk that lies in a run lies within the run's bounds.
pub proof fn lemma_chunk_lies_within(bytes: Seq<u8>, pos: int, end: int, at: int)
    requires
        0 <= pos,
        end <= bytes.len(),
        chunk_lies_in(bytes, pos, end, at),
    ensures
        pos <= at,
        chunk_end(bytes, at) <= end,
    decreases end - pos,
{
    lemma_length_at_bounds(bytes, pos);
    if at != pos {
        let next = chunk_end(bytes, pos);
        if tag_at(bytes, pos).kind() == ChunkKind::Container && chunk_lies_in(
            bytes,
            pos + HEADER_LEN,
            next,
            at,
        ) {
            lemma_chunk_lies_within(bytes, pos + HEADER_LEN, next, at);
        } else {
            lemma_chunk_lies_within(bytes, next, end, at);
        }
    }
}

/// A cut inside a chunk at any depth splits a chunk of the enclosing run.
pub proof fn lemma_cut_inside_splits_run(bytes: Seq<u8>, pos: int, end: int, at: int, k: int)
    requires
        0 <= pos,
        end <= bytes.len(),
        chunk_lies_in(bytes, pos, end, at),
        at < k < chunk_end(bytes, at),
    ensures
        splits_chunk(bytes, pos, k),
    decreases end - pos,
{
    lemma_length_at_bounds(bytes, pos);
    if at != pos {
        let next = chunk_end(bytes, pos);
        if tag_at(bytes, pos).kind() == ChunkKind::Container && chunk_lies_in(
            bytes,
            pos + HEADER_LEN,
            next,
            at,
        ) {
            lemma_chunk_lies_within(bytes, pos + HEADER_LEN, next, at);
        } else {
            lemma_chunk_lies_within(bytes, next, end, at);
            lemma_cut_inside_splits_run(bytes, next, end, at, k);
        }
    }
}

/// A file cut off inside a chunk is never accepted. Where `k` splits a chunk
/// at the root of the file, the first `k` bytes are rejected; and if the
/// whole file is sound, they are rejected with `UnexpectedEof` when the cut
/// falls in that chunk's header and with `ChunkOverflow`, naming that chunk,
/// when it falls in its payload.
pub proof fn cut_file_is_rejected(bytes: Seq<u8>, k: int)
    requires
        SIGNATURE_LEN <= k <= bytes.len(),
        splits_chunk(bytes, SIGNATURE_LEN as int, k),
    ensures
        parse_spec(bytes.take(k)) is Err,
        parse_spec(bytes) is Ok ==> parse_spec(bytes.take(k)) == Err::<FileInfoView, ParseError>(
            cut_failure(bytes, SIGNATURE_LEN as int, k),
        ),
{
    let cut = bytes.take(k);
    if has_signature(bytes) {
        walk_reads_its_range_only(cut, bytes, 4, k, MAX_DEPTH as nat);
        lemma_cut_run_fails(bytes, 4, bytes.len() as int, k, MAX_DEPTH as nat);
    }
}

/// Truncation is detected: a file that is cut off partway through a chunk,
/// at whatever depth the chunk lies, is never accepted, so no track is ever
/// reported at its full size when its bytes are not all there. If the whole
/// file is sound, what is left of it is rejected with `UnexpectedEof` or
/// `ChunkOverflow`; if it is not, the failure may be that of a fault that
/// stands before the cut.
pub proof fn truncation_is_detected(bytes: Seq<u8>, at: int, k: int)
    requires
        chunk_lies_in(bytes, SIGNATURE_LEN as int, bytes.len() as int, at),
        at < k < chunk_end(bytes, at),
    ensures
        parse_spec(bytes.take(k)) is Err,
        parse_spec(bytes) is Ok ==> parse_spec(bytes.take(k)) == Err::<FileInfoView, ParseError>(
            ParseError::UnexpectedEof,
        ) || parse_spec(bytes.take(k)) matches Err(ParseError::ChunkOverflow { .. }),
{
    lemma_chunk_lies_within(bytes, 4, bytes.len() as int, at);
    lemma_cut_inside_splits_run(bytes, 4, bytes.len() as int, at, k);
    cut_file_is_rejected(bytes, k);
    lemma_cut_failure_kinds(bytes, 4, k);
}

} // verus!
