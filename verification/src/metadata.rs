//! The metadata chunk: title, author and copyright.
//!
//! The payload is a run of entries. Each entry is a two-byte tag, a two-byte
//! big-endian length and that many bytes of data. The entries tagged `ST`,
//! `CA` and `CR` hold the title, the author and the copyright notice; any
//! other entry is passed over. Reading stops at the first entry that does not
//! fit in what is left of the payload.

use crate::cursor::{be16, Cursor};
use vstd::prelude::*;
use vstd::slice::{slice_subrange, slice_to_vec};
use vstd::utf8::{decode_utf8, valid_utf8};

verus! {

/// `ST`: the tag of the entry that holds the song's title.
pub const TITLE_TAG: (u8, u8) = (0x53, 0x54);

/// `CA`: the tag of the entry that holds the author.
pub const AUTHOR_TAG: (u8, u8) = (0x43, 0x41);

/// `CR`: the tag of the entry that holds the copyright notice.
pub const COPYRIGHT_TAG: (u8, u8) = (0x43, 0x52);

/// The number of bytes that precede an entry's data: its tag and its length.
pub const ENTRY_HEADER_LEN: usize = 4;

/// The data of the first entry tagged `tag` among the entries that start at
/// `pos`, if the run of well-formed entries holds one.
pub open spec fn find_field(payload: Seq<u8>, pos: int, tag: (u8, u8)) -> Option<Seq<u8>>
    decreases payload.len() - pos,
{
    if pos < 0 || payload.len() - pos < ENTRY_HEADER_LEN {
        None
    } else {
        let len = be16(payload.subrange(pos + 2, pos + 4));
        let data = pos + ENTRY_HEADER_LEN;
        if len > payload.len() - data {
            None
        } else if (payload[pos], payload[pos + 1]) == tag {
            Some(payload.subrange(data, data + len))
        } else {
            find_field(payload, data + len, tag)
        }
    }
}

/// The number of bytes of `data` that precede its first zero byte: all of
/// them if it holds none.
pub open spec fn text_len(data: Seq<u8>) -> nat
    decreases data.len(),
{
    if data.len() == 0 || data[0] == 0 {
        0
    } else {
        1 + text_len(data.drop_first())
    }
}

/// The text that a byte run stands for: its bytes up to the first zero byte
/// read as UTF-8, or nothing if they are not valid UTF-8.
pub open spec fn text_of(data: Seq<u8>) -> Seq<char> {
    let run = data.take(text_len(data) as int);
    if valid_utf8(run) {
        decode_utf8(run)
    } else {
        Seq::empty()
    }
}

/// The text of the field tagged `tag`: empty if the payload holds no such
/// entry.
pub open spec fn field_text(payload: Seq<u8>, tag: (u8, u8)) -> Seq<char> {
    match find_field(payload, 0, tag) {
        Some(data) => text_of(data),
        None => Seq::empty(),
    }
}

/// An entry as it is meant, before it is written down: its tag and its data.
pub struct Entry {
    pub tag: (u8, u8),
    pub data: Seq<u8>,
}

/// The bytes that stand for an entry: the tag, the length of the data as a
/// two-byte big-endian number, and the data.
pub open spec fn encode_entry(entry: Entry) -> Seq<u8> {
    seq![
        entry.tag.0,
        entry.tag.1,
        (entry.data.len() / 0x100) as u8,
        (entry.data.len() % 0x100) as u8,
    ] + entry.data
}

/// The bytes that stand for a run of entries: one after the other.
pub open spec fn encode_entries(entries: Seq<Entry>) -> Seq<u8>
    decreases entries.len(),
{
    if entries.len() == 0 {
        Seq::empty()
    } else {
        encode_entry(entries[0]) + encode_entries(entries.drop_first())
    }
}

/// The data of the first of the entries that bears `tag`.
pub open spec fn first_tagged(entries: Seq<Entry>, tag: (u8, u8)) -> Option<Seq<u8>>
    decreases entries.len(),
{
    if entries.len() == 0 {
        None
    } else if entries[0].tag == tag {
        Some(entries[0].data)
    } else {
        first_tagged(entries.drop_first(), tag)
    }
}

/// Whether the data of each entry is short enough for its length field.
pub open spec fn entries_fit(entries: Seq<Entry>) -> bool {
    forall|i: int| 0 <= i < entries.len() ==> (#[trigger] entries[i]).data.len() <= 0xffff
}

/// What a `Metadata` value stands for.
pub struct MetadataView {
    pub song_title: Seq<char>,
    pub author: Seq<char>,
    pub copyright: Seq<char>,
}

impl MetadataView {
    /// The metadata of a file that carries none.
    pub open spec fn empty() -> MetadataView {
        MetadataView { song_title: Seq::empty(), author: Seq::empty(), copyright: Seq::empty() }
    }
}

/// The metadata that a metadata chunk's payload holds.
pub open spec fn metadata_of(payload: Seq<u8>) -> MetadataView {
    MetadataView {
        song_title: field_text(payload, TITLE_TAG),
        author: field_text(payload, AUTHOR_TAG),
        copyright: field_text(payload, COPYRIGHT_TAG),
    }
}

/// The descriptive texts of a file. A text that the file does not carry, or
/// carries in a broken encoding, is empty.
#[derive(Debug, Clone, PartialEq, Eq)]
pub struct Metadata {
    pub song_title: String,
    pub author: String,
    pub copyright: String,
}

impl View for Metadata {
    type V = MetadataView;

    open spec fn view(&self) -> MetadataView {
        MetadataView {
            song_title: self.song_title@,
            author: self.author@,
            copyright: self.copyright@,
        }
    }
}

impl Metadata {
    /// The metadata of a file that carries none: three empty texts.
    pub fn empty() -> (m: Metadata)
        ensures
            m@ == MetadataView::empty(),
    {
        Metadata { song_title: String::new(), author: String::new(), copyright: String::new() }
    }
}

/// Calls `String::from_utf8` of the standard library. Its contract is
/// believed, not proved: the call succeeds exactly on valid UTF-8 and then
/// gives the string that `bytes` encodes; its error is handed on as `None`.
#[verifier::external_body]
fn string_from_utf8(bytes: Vec<u8>) -> (r: Option<String>)
    ensures
        match r {
            Some(s) => valid_utf8(bytes@) && s@ == decode_utf8(bytes@),
            None => !valid_utf8(bytes@),
        },
{
    match String::from_utf8(bytes) {
        Ok(s) => Some(s),
        Err(_) => None,
    }
}

/// Finds the data of the first entry tagged `tag` in a metadata payload.
pub fn locate_field<'a>(payload: &'a [u8], tag: (u8, u8)) -> (r: Option<&'a [u8]>)
    ensures
        match r {
            Some(data) => find_field(payload@, 0, tag) == Some(data@),
            None => find_field(payload@, 0, tag) is None,
        },
{
    let mut cursor = Cursor::new(payload);
    loop
        invariant
            cursor@.buffer == payload@,
            cursor@.end == payload@.len(),
            0 <= cursor@.pos <= cursor@.end,
            find_field(payload@, 0, tag) == find_field(payload@, cursor@.pos, tag),
        decreases cursor@.remaining(),
    {
        if cursor.remaining() < ENTRY_HEADER_LEN {
            return None;
        }
        let found = match cursor.read_exact(2) {
            Ok(t) => t[0] == tag.0 && t[1] == tag.1,
            Err(_) => {
                return None;
            },
        };
        let len = match cursor.read_u16_be() {
            Ok(n) => n as usize,
            Err(_) => {
                return None;
            },
        };
        let data = match cursor.read_exact(len) {
            Ok(d) => d,
            Err(_) => {
                return None;
            },
        };
        if found {
            return Some(data);
        }
    }
}

/// Decodes a field's bytes as text: the bytes up to the first zero byte if
/// they are valid UTF-8, and the empty string if they are not.
pub fn decode_text(data: &[u8]) -> (s: String)
    ensures
        s@ == text_of(data@),
{
    let mut n: usize = 0;
    proof {
        assert(data@.skip(0) =~= data@);
    }
    while n < data.len() && data[n] != 0
        invariant
            n <= data@.len(),
            text_len(data@) == n + text_len(data@.skip(n as int)),
        decreases data@.len() - n,
    {
        proof {
            assert(data@.skip(n as int).drop_first() =~= data@.skip(n + 1));
        }
        n = n + 1;
    }
    let run = slice_to_vec(slice_subrange(data, 0, n));
    match string_from_utf8(run) {
        Some(s) => s,
        None => String::new(),
    }
}

/// Decodes the payload of a metadata chunk. A field that is missing, cut
/// short or not valid text comes out empty; nothing makes the decoding fail.
pub fn decode_metadata(payload: &[u8]) -> (m: Metadata)
    ensures
        m@ == metadata_of(payload@),
{
    let song_title = match locate_field(payload, TITLE_TAG) {
        Some(data) => decode_text(data),
        None => String::new(),
    };
    let author = match locate_field(payload, AUTHOR_TAG) {
        Some(data) => decode_text(data),
        None => String::new(),
    };
    let copyright = match locate_field(payload, COPYRIGHT_TAG) {
        Some(data) => decode_text(data),
        None => String::new(),
    };
    Metadata { song_title, author, copyright }
}

} // verus!
