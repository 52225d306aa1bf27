//! The format as an encoder sees it: a tree of chunks and the bytes that
//! stand for it. Nothing here runs; it says which buffers are well-formed
//! files and what they hold.

use crate::chunk::{
    header_at, ChunkHeader, ChunkKind, Tag, HEADER_LEN, METADATA_TAG, MIDI_PREFIX, SMAF_TAG,
    WAVE_PREFIX,
};
use crate::cursor::be32;
use crate::metadata::{metadata_of, MetadataView};
use crate::track::{MidiTrack, WaveTrack};
use crate::walker::{decode_chunk, decode_chunks, Found, MAX_DEPTH};
use vstd::arithmetic::div_mod::lemma_fundamental_div_mod_converse;
use vstd::prelude::*;

verus! {

/// A chunk as it is meant, before it is written down.
pub enum Chunk {
    /// A container and the chunks inside it.
    Container(Seq<Chunk>),
    /// The metadata chunk and its payload.
    Metadata(Seq<u8>),
    /// A score track: its number and its payload.
    Midi(u8, Seq<u8>),
    /// An audio track: its number and its payload.
    Wave(u8, Seq<u8>),
    /// A chunk of a type that the decoder does not know.
    Other(Tag, Seq<u8>),
}

/// The eight bytes of a header: the tag and the length, most significant
/// byte first.
pub open spec fn header_bytes(tag: Tag, len: int) -> Seq<u8> {
    seq![
        tag.0,
        tag.1,
        tag.2,
        tag.3,
        (len / 0x100_0000) as u8,
        (len / 0x1_0000 % 0x100) as u8,
        (len / 0x100 % 0x100) as u8,
        (len % 0x100) as u8,
    ]
}

impl Chunk {
    /// The tag under which the chunk is written.
    pub open spec fn tag(self) -> Tag {
        match self {
            Chunk::Container(_) => Tag::of(SMAF_TAG),
            Chunk::Metadata(_) => Tag::of(METADATA_TAG),
            Chunk::Midi(track_no, _) => Tag::of_track(MIDI_PREFIX, track_no),
            Chunk::Wave(track_no, _) => Tag::of_track(WAVE_PREFIX, track_no),
            Chunk::Other(tag, _) => tag,
        }
    }

    /// The bytes that follow the chunk's header.
    pub open spec fn payload(self) -> Seq<u8>
        decreases self, 0int,
    {
        match self {
            Chunk::Container(children) => encode_all(children),
            Chunk::Metadata(p) => p,
            Chunk::Midi(_, p) => p,
            Chunk::Wave(_, p) => p,
            Chunk::Other(_, p) => p,
        }
    }

    /// The bytes that stand for the chunk: its header, then its payload.
    pub open spec fn encode(self) -> Seq<u8>
        decreases self, 1int,
    {
        header_bytes(self.tag(), self.payload().len() as int) + self.payload()
    }
}

/// The bytes that stand for a run of sibling chunks: one after the other.
pub open spec fn encode_all(chunks: Seq<Chunk>) -> Seq<u8>
    decreases chunks, 2int,
{
    if chunks.len() == 0 {
        Seq::empty()
    } else {
        chunks[0].encode() + encode_all(chunks.drop_first())
    }
}

/// The bytes of a whole file: the signature, then the chunks at its root.
pub open spec fn encode_file(chunks: Seq<Chunk>) -> Seq<u8> {
    seq![SMAF_TAG.0, SMAF_TAG.1, SMAF_TAG.2, SMAF_TAG.3] + encode_all(chunks)
}

/// A track as it is meant: its number and the bytes of its payload.
pub struct TrackData {
    pub track_no: u8,
    pub data: Seq<u8>,
}

/// What a tree of chunks holds, in the order in which the chunks are
/// written: the texts of the first metadata chunk, the score tracks and the
/// audio tracks.
pub struct Holdings {
    pub metadata: Option<MetadataView>,
    pub midi_tracks: Seq<TrackData>,
    pub wave_tracks: Seq<TrackData>,
}

impl Holdings {
    /// Nothing held.
    pub open spec fn empty() -> Holdings {
        Holdings { metadata: None, midi_tracks: Seq::empty(), wave_tracks: Seq::empty() }
    }

    /// What is held when `later` is written behind `self`.
    pub open spec fn followed_by(self, later: Holdings) -> Holdings {
        Holdings {
            metadata: if self.metadata is Some {
                self.metadata
            } else {
                later.metadata
            },
            midi_tracks: self.midi_tracks + later.midi_tracks,
            wave_tracks: self.wave_tracks + later.wave_tracks,
        }
    }
}

impl Chunk {
    /// Whether the chunk can be written and read back when `depth` levels of
    /// containers may still be entered: every payload length fits its
    /// four-byte field, no container lies deeper than `depth`, and no chunk
    /// of an unknown type bears a tag that the decoder knows.
    pub open spec fn well_formed(self, depth: nat) -> bool
        decreases self, 0int,
    {
        &&& self.payload().len() <= u32::MAX
        &&& match self {
            Chunk::Container(children) => depth > 0 && all_well_formed(
                children,
                (depth - 1) as nat,
            ),
            Chunk::Other(tag, _) => tag.kind() == ChunkKind::Unknown,
            _ => true,
        }
    }

    /// The number of score tracks in the chunk: one if it is a score track,
    /// and those of its children if it is a container.
    pub open spec fn midi_count(self) -> nat
        decreases self, 0int,
    {
        match self {
            Chunk::Container(children) => midi_count_of(children),
            Chunk::Midi(_, _) => 1,
            _ => 0,
        }
    }

    /// The number of audio tracks in the chunk: one if it is an audio track,
    /// and those of its children if it is a container.
    pub open spec fn wave_count(self) -> nat
        decreases self, 0int,
    {
        match self {
            Chunk::Container(children) => wave_count_of(children),
            Chunk::Wave(_, _) => 1,
            _ => 0,
        }
    }

    /// What the chunk holds.
    pub open spec fn holdings(self) -> Holdings
        decreases self, 0int,
    {
        match self {
            Chunk::Container(children) => holdings_of(children),
            Chunk::Metadata(p) => Holdings { metadata: Some(metadata_of(p)), ..Holdings::empty() },
            Chunk::Midi(track_no, data) => Holdings {
                midi_tracks: seq![TrackData { track_no, data }],
                ..Holdings::empty()
            },
            Chunk::Wave(track_no, data) => Holdings {
                wave_tracks: seq![TrackData { track_no, data }],
                ..Holdings::empty()
            },
            Chunk::Other(_, _) => Holdings::empty(),
        }
    }
}

/// The number of score tracks in a run of sibling chunks, at any depth.
pub open spec fn midi_count_of(chunks: Seq<Chunk>) -> nat
    decreases chunks, 1int,
{
    if chunks.len() == 0 {
        0
    } else {
        chunks[0].midi_count() + midi_count_of(chunks.drop_first())
    }
}

/// The number of audio tracks in a run of sibling chunks, at any depth.
pub open spec fn wave_count_of(chunks: Seq<Chunk>) -> nat
    decreases chunks, 1int,
{
    if chunks.len() == 0 {
        0
    } else {
        chunks[0].wave_count() + wave_count_of(chunks.drop_first())
    }
}

/// Whether every chunk of a run of siblings is well-formed.
pub open spec fn all_well_formed(chunks: Seq<Chunk>, depth: nat) -> bool
    decreases chunks, 1int,
{
    chunks.len() == 0 || (chunks[0].well_formed(depth) && all_well_formed(
        chunks.drop_first(),
        depth,
    ))
}

/// What a run of sibling chunks holds.
pub open spec fn holdings_of(chunks: Seq<Chunk>) -> Holdings
    decreases chunks, 1int,
{
    if chunks.len() == 0 {
        Holdings::empty()
    } else {
        chunks[0].holdings().followed_by(holdings_of(chunks.drop_first()))
    }
}

/// Whether the chunks make up a file that the decoder accepts: they are
/// well-formed at the depth that the decoder allows, and the file is no
/// longer than a buffer in memory can be.
pub open spec fn file_well_formed(chunks: Seq<Chunk>) -> bool {
    all_well_formed(chunks, MAX_DEPTH as nat) && encode_file(chunks).len() <= usize::MAX
}

/// The track that a score track's descriptor points at in `bytes`.
pub open spec fn midi_data(bytes: Seq<u8>, t: MidiTrack) -> TrackData {
    TrackData { track_no: t.track_no, data: t.payload.of(bytes) }
}

/// The track that an audio track's descriptor points at in `bytes`.
pub open spec fn wave_data(bytes: Seq<u8>, t: WaveTrack) -> TrackData {
    TrackData { track_no: t.track_no, data: t.payload.of(bytes) }
}

/// What a walk's finds amount to once each descriptor is followed into
/// `bytes`.
pub open spec fn resolve(bytes: Seq<u8>, found: Found) -> Holdings {
    Holdings {
        metadata: found.metadata,
        midi_tracks: found.midi_tracks.map_values(|t: MidiTrack| midi_data(bytes, t)),
        wave_tracks: found.wave_tracks.map_values(|t: WaveTrack| wave_data(bytes, t)),
    }
}

/// Whether every descriptor's payload lies within `bytes` and is as long as
/// the descriptor's `size` says.
pub open spec fn sound(bytes: Seq<u8>, found: Found) -> bool {
    &&& forall|i: int|
        0 <= i < found.midi_tracks.len() ==> {
            let t = #[trigger] found.midi_tracks[i];
            t.payload.fits(bytes) && t.size == t.payload.len
        }
    &&& forall|i: int|
        0 <= i < found.wave_tracks.len() ==> {
            let t = #[trigger] found.wave_tracks[i];
            t.payload.fits(bytes) && t.size == t.payload.len
        }
}

/// A chunk holds as many tracks of each kind as it counts.
pub proof fn lemma_chunk_holds_its_count(chunk: Chunk)
    ensures
        chunk.holdings().midi_tracks.len() == chunk.midi_count(),
        chunk.holdings().wave_tracks.len() == chunk.wave_count(),
    decreases chunk, 0int,
{
    match chunk {
        Chunk::Container(children) => lemma_run_holds_its_count(children),
        _ => {},
    }
}

/// A run of chunks holds as many tracks of each kind as it counts.
pub proof fn lemma_run_holds_its_count(chunks: Seq<Chunk>)
    ensures
        holdings_of(chunks).midi_tracks.len() == midi_count_of(chunks),
        holdings_of(chunks).wave_tracks.len() == wave_count_of(chunks),
    decreases chunks, 1int,
{
    if chunks.len() > 0 {
        lemma_chunk_holds_its_count(chunks[0]);
        lemma_run_holds_its_count(chunks.drop_first());
    }
}

/// Whether `part` stands in `bytes` at `pos`.
pub open spec fn holds_at(bytes: Seq<u8>, pos: int, part: Seq<u8>) -> bool {
    0 <= pos && pos + part.len() <= bytes.len() && bytes.subrange(pos, pos + part.len()) == part
}

/// Where two parts stand one behind the other, each stands in its place.
pub proof fn lemma_holds_at_split(bytes: Seq<u8>, pos: int, a: Seq<u8>, b: Seq<u8>)
    requires
        holds_at(bytes, pos, a + b),
    ensures
        holds_at(bytes, pos, a),
        holds_at(bytes, pos + a.len(), b),
{
    let whole = bytes.subrange(pos, pos + (a + b).len());
    assert(bytes.subrange(pos, pos + a.len()) =~= whole.subrange(0, a.len() as int));
    assert(whole.subrange(0, a.len() as int) =~= a);
    assert(bytes.subrange(pos + a.len(), pos + a.len() + b.len()) =~= whole.subrange(
        a.len() as int,
        (a + b).len() as int,
    ));
    assert(whole.subrange(a.len() as int, (a + b).len() as int) =~= b);
}

/// A header that was written is the header that is read.
pub proof fn lemma_header_reads_back(bytes: Seq<u8>, pos: int, tag: Tag, len: int)
    requires
        0 <= len <= u32::MAX,
        holds_at(bytes, pos, header_bytes(tag, len)),
    ensures
        header_at(bytes, pos) == (ChunkHeader { tag, declared_length: len as u32 }),
{
    let head = bytes.subrange(pos, pos + 8);
    assert(bytes[pos] == head[0] && bytes[pos + 1] == head[1] && bytes[pos + 2] == head[2]
        && bytes[pos + 3] == head[3]);
    assert(bytes.subrange(pos + 4, pos + 8) =~= head.subrange(4, 8));
}

/// Following the descriptors distributes over `followed_by`.
pub proof fn lemma_resolve_followed_by(bytes: Seq<u8>, a: Found, b: Found)
    ensures
        resolve(bytes, a.followed_by(b)) == resolve(bytes, a).followed_by(resolve(bytes, b)),
        sound(bytes, a) && sound(bytes, b) ==> sound(bytes, a.followed_by(b)),
{
    let l = resolve(bytes, a.followed_by(b));
    let r = resolve(bytes, a).followed_by(resolve(bytes, b));
    assert(l.midi_tracks =~= r.midi_tracks);
    assert(l.wave_tracks =~= r.wave_tracks);
}

/// A well-formed chunk that stands at `pos` is read back as it was written.
pub proof fn lemma_chunk_reads_back(bytes: Seq<u8>, pos: int, chunk: Chunk, depth: nat)
    requires
        chunk.well_formed(depth),
        holds_at(bytes, pos, chunk.encode()),
        bytes.len() <= usize::MAX,
    ensures
        header_at(bytes, pos) == (ChunkHeader {
            tag: chunk.tag(),
            declared_length: chunk.payload().len() as u32,
        }),
        decode_chunk(bytes, pos, depth) matches Ok(found) && resolve(bytes, found)
            == chunk.holdings() && sound(bytes, found),
    decreases chunk, 0int,
{
    let payload = chunk.payload();
    let body = pos + HEADER_LEN;
    lemma_holds_at_split(bytes, pos, header_bytes(chunk.tag(), payload.len() as int), payload);
    lemma_header_reads_back(bytes, pos, chunk.tag(), payload.len() as int);
    match chunk {
        Chunk::Container(children) => {
            lemma_run_reads_back(bytes, body, children, (depth - 1) as nat);
        },
        Chunk::Metadata(p) => {
            let found = decode_chunk(bytes, pos, depth)->Ok_0;
            assert(resolve(bytes, found).midi_tracks =~= Seq::empty());
            assert(resolve(bytes, found).wave_tracks =~= Seq::empty());
        },
        Chunk::Midi(track_no, data) => {
            let found = decode_chunk(bytes, pos, depth)->Ok_0;
            assert(resolve(bytes, found).midi_tracks =~= seq![TrackData { track_no, data }]);
            assert(resolve(bytes, found).wave_tracks =~= Seq::empty());
        },
        Chunk::Wave(track_no, data) => {
            let found = decode_chunk(bytes, pos, depth)->Ok_0;
            assert(resolve(bytes, found).midi_tracks =~= Seq::empty());
            assert(resolve(bytes, found).wave_tracks =~= seq![TrackData { track_no, data }]);
        },
        Chunk::Other(_, _) => {
            let found = decode_chunk(bytes, pos, depth)->Ok_0;
            assert(resolve(bytes, found).midi_tracks =~= Seq::empty());
            assert(resolve(bytes, found).wave_tracks =~= Seq::empty());
        },
    }
}

/// A run of well-formed chunks that stands at `pos` is read back as it was
/// written: the walk over exactly its bytes succeeds, and what it finds is
/// what the chunks hold, in their order.
pub proof fn lemma_run_reads_back(bytes: Seq<u8>, pos: int, chunks: Seq<Chunk>, depth: nat)
    requires
        all_well_formed(chunks, depth),
        holds_at(bytes, pos, encode_all(chunks)),
        bytes.len() <= usize::MAX,
    ensures
        decode_chunks(bytes, pos, pos + encode_all(chunks).len(), depth) matches Ok(found)
            && resolve(bytes, found) == holdings_of(chunks) && sound(bytes, found),
    decreases chunks, 1int,
{
    let end = pos + encode_all(chunks).len();
    if chunks.len() == 0 {
        let found = decode_chunks(bytes, pos, end, depth)->Ok_0;
        assert(resolve(bytes, found).midi_tracks =~= Seq::empty());
        assert(resolve(bytes, found).wave_tracks =~= Seq::empty());
    } else {
        let first = chunks[0];
        let rest = chunks.drop_first();
        lemma_holds_at_split(bytes, pos, first.encode(), encode_all(rest));
        lemma_chunk_reads_back(bytes, pos, first, depth);
        let next = pos + first.encode().len();
        lemma_run_reads_back(bytes, next, rest, depth);
        let here = decode_chunk(bytes, pos, depth)->Ok_0;
        let after = decode_chunks(bytes, next, end, depth)->Ok_0;
        lemma_resolve_followed_by(bytes, here, after);
        assert(first.well_formed(depth));
    }
}

/// The run of siblings `chunks` with `extra` put in at the place that `path`
/// names: `path` leads from container to container by their indices, and its
/// last entry is the index in front of which `extra` goes. A path that leads
/// nowhere leaves the run as it is.
pub open spec fn insert_chunk(chunks: Seq<Chunk>, path: Seq<int>, extra: Chunk) -> Seq<Chunk>
    decreases path.len(),
{
    if path.len() == 0 {
        chunks
    } else if path.len() == 1 {
        if 0 <= path[0] <= chunks.len() {
            chunks.insert(path[0], extra)
        } else {
            chunks
        }
    } else if 0 <= path[0] < chunks.len() {
        match chunks[path[0]] {
            Chunk::Container(children) => chunks.update(
                path[0],
                Chunk::Container(insert_chunk(children, path.drop_first(), extra)),
            ),
            _ => chunks,
        }
    } else {
        chunks
    }
}

/// `followed_by` does not care how a run of holdings is grouped, and empty
/// holdings add nothing.
pub proof fn lemma_holdings_followed_by(a: Holdings, b: Holdings, c: Holdings)
    ensures
        a.followed_by(b).followed_by(c) == a.followed_by(b.followed_by(c)),
        a.followed_by(Holdings::empty()) == a,
        Holdings::empty().followed_by(a) == a,
{
    assert(a.followed_by(b).followed_by(c).midi_tracks =~= a.followed_by(
        b.followed_by(c),
    ).midi_tracks);
    assert(a.followed_by(b).followed_by(c).wave_tracks =~= a.followed_by(
        b.followed_by(c),
    ).wave_tracks);
}

/// Two runs written one behind the other hold what the first holds,
/// followed by what the second holds.
pub proof fn lemma_holdings_of_joined_runs(a: Seq<Chunk>, b: Seq<Chunk>)
    ensures
        holdings_of(a + b) == holdings_of(a).followed_by(holdings_of(b)),
    decreases a.len(),
{
    if a.len() == 0 {
        lemma_holdings_followed_by(holdings_of(b), Holdings::empty(), Holdings::empty());
    } else {
        assert((a + b).drop_first() =~= a.drop_first() + b);
        lemma_holdings_of_joined_runs(a.drop_first(), b);
        lemma_holdings_followed_by(a[0].holdings(), holdings_of(a.drop_first()), holdings_of(b));
    }
}

/// A run holds what stands before its `i`-th chunk, then what that chunk
/// holds, then what stands behind it.
pub proof fn lemma_holdings_around(chunks: Seq<Chunk>, i: int)
    requires
        0 <= i < chunks.len(),
    ensures
        holdings_of(chunks) == holdings_of(chunks.take(i)).followed_by(
            chunks[i].holdings().followed_by(holdings_of(chunks.skip(i + 1))),
        ),
{
    let rest = chunks.skip(i);
    assert(chunks =~= chunks.take(i) + rest);
    assert(rest.drop_first() =~= chunks.skip(i + 1));
    lemma_holdings_of_joined_runs(chunks.take(i), rest);
}

/// A chunk of an unknown type adds nothing to what a run holds, wherever in
/// the tree it is put.
pub proof fn lemma_unknown_chunk_holds_nothing(
    chunks: Seq<Chunk>,
    path: Seq<int>,
    tag: Tag,
    payload: Seq<u8>,
)
    ensures
        holdings_of(insert_chunk(chunks, path, Chunk::Other(tag, payload))) == holdings_of(chunks),
    decreases path.len(),
{
    let extra = Chunk::Other(tag, payload);
    let after = insert_chunk(chunks, path, extra);
    if path.len() == 1 && 0 <= path[0] <= chunks.len() {
        let i = path[0];
        assert(chunks =~= chunks.take(i) + chunks.skip(i));
        lemma_holdings_of_joined_runs(chunks.take(i), chunks.skip(i));
        lemma_holdings_around(after, i);
        assert(after.take(i) =~= chunks.take(i));
        assert(after.skip(i + 1) =~= chunks.skip(i));
        let behind = holdings_of(chunks.skip(i));
        lemma_holdings_followed_by(behind, Holdings::empty(), Holdings::empty());
    } else if path.len() > 1 && 0 <= path[0] < chunks.len() {
        let i = path[0];
        match chunks[i] {
            Chunk::Container(children) => {
                lemma_unknown_chunk_holds_nothing(children, path.drop_first(), tag, payload);
                lemma_holdings_around(chunks, i);
                lemma_holdings_around(after, i);
                assert(after.take(i) =~= chunks.take(i));
                assert(after.skip(i + 1) =~= chunks.skip(i + 1));
            },
            _ => {},
        }
    }
}

/// The chunk that is written at `pos`, read as a tree: a container with the
/// chunks of its payload, as far as `depth` allows, and any other chunk with
/// its payload as it stands.
pub open spec fn chunk_in(bytes: Seq<u8>, pos: int, depth: nat) -> Chunk
    decreases depth, 0int,
{
    let header = header_at(bytes, pos);
    let body = pos + HEADER_LEN;
    let next = body + header.declared_length;
    match header.tag.kind() {
        ChunkKind::Container => Chunk::Container(
            if depth == 0 {
                Seq::empty()
            } else {
                chunks_in(bytes, body, next, (depth - 1) as nat)
            },
        ),
        ChunkKind::Metadata => Chunk::Metadata(bytes.subrange(body, next)),
        ChunkKind::MidiTrack => Chunk::Midi(header.tag.track_no(), bytes.subrange(body, next)),
        ChunkKind::WaveTrack => Chunk::Wave(header.tag.track_no(), bytes.subrange(body, next)),
        ChunkKind::Unknown => Chunk::Other(header.tag, bytes.subrange(body, next)),
    }
}

/// The chunks that are written in `pos..end`, read as trees, up to the
/// first that does not fit.
pub open spec fn chunks_in(bytes: Seq<u8>, pos: int, end: int, depth: nat) -> Seq<Chunk>
    decreases depth, end - pos,
{
    if end - pos < HEADER_LEN {
        Seq::empty()
    } else {
        let next = pos + HEADER_LEN + header_at(bytes, pos).declared_length;
        if next > end {
            Seq::empty()
        } else {
            seq![chunk_in(bytes, pos, depth)] + chunks_in(bytes, next, end, depth)
        }
    }
}

/// The four bytes of a big-endian number are its digits to the base 256.
pub proof fn lemma_be32_digits(b0: u8, b1: u8, b2: u8, b3: u8)
    ensures
        ({
            let n = b0 * 0x100_0000 + b1 * 0x1_0000 + b2 * 0x100 + b3;
            &&& n / 0x100_0000 == b0
            &&& n / 0x1_0000 % 0x100 == b1
            &&& n / 0x100 % 0x100 == b2
            &&& n % 0x100 == b3
        }),
{
    let n = b0 * 0x100_0000 + b1 * 0x1_0000 + b2 * 0x100 + b3;
    lemma_fundamental_div_mod_converse(n, 0x100_0000, b0 as int, b1 * 0x1_0000 + b2 * 0x100 + b3);
    lemma_fundamental_div_mod_converse(n, 0x1_0000, b0 * 0x100 + b1, b2 * 0x100 + b3);
    lemma_fundamental_div_mod_converse(b0 * 0x100 + b1, 0x100, b0 as int, b1 as int);
    lemma_fundamental_div_mod_converse(n, 0x100, b0 * 0x1_0000 + b1 * 0x100 + b2, b3 as int);
    lemma_fundamental_div_mod_converse(
        b0 * 0x1_0000 + b1 * 0x100 + b2,
        0x100,
        b0 * 0x100 + b1,
        b2 as int,
    );
}

/// A header that was read is the header that an encoder writes.
pub proof fn lemma_header_writes_back(bytes: Seq<u8>, pos: int)
    requires
        0 <= pos,
        pos + HEADER_LEN <= bytes.len(),
    ensures
        bytes.subrange(pos, pos + HEADER_LEN) == header_bytes(
            header_at(bytes, pos).tag,
            header_at(bytes, pos).declared_length as int,
        ),
{
    let field = bytes.subrange(pos + 4, pos + 8);
    lemma_be32_digits(field[0], field[1], field[2], field[3]);
}

/// A range that the walk accepts is the encoding of the trees read from it,
/// and those trees are well-formed.
pub proof fn lemma_accepted_run_is_encoded(bytes: Seq<u8>, pos: int, end: int, depth: nat)
    requires
        0 <= pos <= end <= bytes.len(),
        decode_chunks(bytes, pos, end, depth) is Ok,
    ensures
        all_well_formed(chunks_in(bytes, pos, end, depth), depth),
        encode_all(chunks_in(bytes, pos, end, depth)) == bytes.subrange(pos, end),
    decreases depth, end - pos,
{
    if end - pos > 0 {
        let header = header_at(bytes, pos);
        let body = pos + HEADER_LEN;
        let next = body + header.declared_length;
        let first = chunk_in(bytes, pos, depth);
        let rest = chunks_in(bytes, next, end, depth);
        let chunks = chunks_in(bytes, pos, end, depth);
        assert(decode_chunk(bytes, pos, depth) is Ok);
        lemma_accepted_run_is_encoded(bytes, next, end, depth);
        if header.tag.kind() == ChunkKind::Container {
            lemma_accepted_run_is_encoded(bytes, body, next, (depth - 1) as nat);
        }
        assert(first.well_formed(depth));
        lemma_header_writes_back(bytes, pos);
        assert(first.encode() =~= bytes.subrange(pos, next));
        assert(chunks.drop_first() =~= rest);
    }
}

} // verus!
