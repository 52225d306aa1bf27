use mmftool::chunk::{read_chunk_header, ChunkHeader, ChunkKind, Tag, HEADER_LEN};
use mmftool::cursor::Cursor;
use mmftool::error::ParseError;

#[test]
fn header_is_eight_bytes() {
    assert_eq!(HEADER_LEN, 8);
}

#[test]
fn header_reader_reads_tag_and_big_endian_length() {
    let bytes = [b'M', b'T', b'R', 5, 0x00, 0x01, 0x02, 0x03, 0xaa];
    let mut cursor = Cursor::new(&bytes);
    assert_eq!(
        read_chunk_header(&mut cursor),
        Ok(ChunkHeader { tag: Tag(b'M', b'T', b'R', 5), declared_length: 0x00010203 })
    );
    assert_eq!(cursor.position(), 8);
    assert_eq!(cursor.remaining(), 1);
}

#[test]
fn header_reader_does_not_judge_the_length() {
    let bytes = [b'O', b'P', b'D', b'A', 0xff, 0xff, 0xff, 0xff];
    let mut cursor = Cursor::new(&bytes);
    assert_eq!(
        read_chunk_header(&mut cursor),
        Ok(ChunkHeader { tag: Tag(b'O', b'P', b'D', b'A'), declared_length: u32::MAX })
    );
    assert_eq!(cursor.remaining(), 0);
}

#[test]
fn header_reader_needs_eight_bytes() {
    let bytes = [b'M', b'T', b'R', 5, 0, 0, 0];
    let mut cursor = Cursor::new(&bytes);
    assert_eq!(read_chunk_header(&mut cursor), Err(ParseError::UnexpectedEof));
    assert_eq!(cursor.position(), 0);
    let mut empty = Cursor::new(&[]);
    assert_eq!(read_chunk_header(&mut empty), Err(ParseError::UnexpectedEof));
}

#[test]
fn tags_are_classified_byte_for_byte() {
    assert_eq!(Tag(b'M', b'M', b'M', b'D').classify(), ChunkKind::Container);
    assert_eq!(Tag(b'O', b'P', b'D', b'A').classify(), ChunkKind::Metadata);
    assert_eq!(Tag(b'M', b'T', b'R', 0).classify(), ChunkKind::MidiTrack);
    assert_eq!(Tag(b'M', b'T', b'R', 255).classify(), ChunkKind::MidiTrack);
    assert_eq!(Tag(b'A', b'T', b'R', 0).classify(), ChunkKind::WaveTrack);
    assert_eq!(Tag(b'A', b'T', b'R', b'x').classify(), ChunkKind::WaveTrack);
    assert_eq!(Tag(b'C', b'N', b'T', b'I').classify(), ChunkKind::Unknown);
    assert_eq!(Tag(0, 0, 0, 0).classify(), ChunkKind::Unknown);
}

#[test]
fn tags_in_another_case_are_unknown() {
    assert_eq!(Tag(b'm', b'm', b'm', b'd').classify(), ChunkKind::Unknown);
    assert_eq!(Tag(b'o', b'p', b'd', b'a').classify(), ChunkKind::Unknown);
    assert_eq!(Tag(b'O', b'P', b'D', b'a').classify(), ChunkKind::Unknown);
    assert_eq!(Tag(b'm', b't', b'r', 1).classify(), ChunkKind::Unknown);
    assert_eq!(Tag(b'A', b't', b'R', 1).classify(), ChunkKind::Unknown);
}

#[test]
fn tag_comparisons() {
    let tag = Tag(b'M', b'T', b'R', 9);
    assert!(tag.has_prefix((b'M', b'T', b'R')));
    assert!(!tag.has_prefix((b'A', b'T', b'R')));
    assert!(tag.has_bytes((b'M', b'T', b'R', 9)));
    assert!(!tag.has_bytes((b'M', b'T', b'R', 8)));
}
