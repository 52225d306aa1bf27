use mmftool::metadata::{decode_metadata, decode_text, locate_field, Metadata};

fn entry(tag: [u8; 2], data: &[u8]) -> Vec<u8> {
    let mut out = tag.to_vec();
    out.extend_from_slice(&(data.len() as u16).to_be_bytes());
    out.extend_from_slice(data);
    out
}

fn texts(title: &str, author: &str, copyright: &str) -> Metadata {
    Metadata {
        song_title: title.to_string(),
        author: author.to_string(),
        copyright: copyright.to_string(),
    }
}

#[test]
fn all_three_fields_are_decoded() {
    let mut payload = entry(*b"ST", b"Test");
    payload.extend(entry(*b"CA", b"A"));
    payload.extend(entry(*b"CR", b"C"));
    assert_eq!(decode_metadata(&payload), texts("Test", "A", "C"));
}

#[test]
fn fields_may_come_in_any_order_among_other_entries() {
    let mut payload = entry(*b"A0", b"other");
    payload.extend(entry(*b"CR", b"(c) 2004"));
    payload.extend(entry(*b"ZZ", b""));
    payload.extend(entry(*b"ST", b"Machine Woman"));
    payload.extend(entry(*b"CA", b"Sample Data"));
    assert_eq!(decode_metadata(&payload), texts("Machine Woman", "Sample Data", "(c) 2004"));
}

#[test]
fn empty_payload_gives_empty_texts() {
    assert_eq!(decode_metadata(&[]), texts("", "", ""));
    assert_eq!(Metadata::empty(), texts("", "", ""));
}

#[test]
fn missing_fields_are_empty() {
    let payload = entry(*b"CA", b"Someone");
    assert_eq!(decode_metadata(&payload), texts("", "Someone", ""));
}

#[test]
fn the_first_entry_of_a_tag_counts() {
    let mut payload = entry(*b"ST", b"first");
    payload.extend(entry(*b"ST", b"second"));
    assert_eq!(decode_metadata(&payload), texts("first", "", ""));
}

#[test]
fn text_ends_at_the_first_zero_byte() {
    let payload = entry(*b"ST", b"Song\0junk\0");
    assert_eq!(decode_metadata(&payload), texts("Song", "", ""));
    assert_eq!(decode_text(b"\0abc"), "");
    assert_eq!(decode_text(b"abc\0"), "abc");
    assert_eq!(decode_text(b"abc"), "abc");
    assert_eq!(decode_text(b""), "");
}

#[test]
fn text_is_read_as_utf8() {
    assert_eq!(decode_text("Grüße, 世界 🎵".as_bytes()), "Grüße, 世界 🎵");
    let payload = entry(*b"CA", "山葉".as_bytes());
    assert_eq!(decode_metadata(&payload), texts("", "山葉", ""));
}

#[test]
fn broken_encoding_empties_that_field_only() {
    let mut payload = entry(*b"ST", &[0xff, 0xfe, b'a']);
    payload.extend(entry(*b"CA", b"fine"));
    payload.extend(entry(*b"CR", &[b'a', 0xc3]));
    assert_eq!(decode_metadata(&payload), texts("", "fine", ""));
    assert_eq!(decode_text(&[0x80]), "");
    assert_eq!(decode_text(&[0xed, 0xa0, 0x80]), "");
}

#[test]
fn broken_bytes_behind_a_zero_byte_do_not_count() {
    assert_eq!(decode_text(&[b'o', b'k', 0, 0xff, 0xff]), "ok");
}

#[test]
fn an_entry_that_is_cut_short_ends_the_reading() {
    // The title declares nine bytes and has four; the author behind it is
    // swallowed by the attempt and never seen.
    let mut payload = entry(*b"CR", b"kept");
    payload.extend_from_slice(b"ST");
    payload.extend_from_slice(&9u16.to_be_bytes());
    payload.extend_from_slice(b"Test");
    assert_eq!(decode_metadata(&payload), texts("", "", "kept"));
    // Three bytes are no entry header.
    assert_eq!(decode_metadata(b"ST\0"), texts("", "", ""));
}

#[test]
fn entries_are_found_at_entry_boundaries_only() {
    // "ST" inside another entry's data is data.
    let payload = entry(*b"XX", b"ST\0\x01A");
    assert_eq!(locate_field(&payload, (b'S', b'T')), None);
    assert_eq!(locate_field(&payload, (b'X', b'X')), Some(&b"ST\0\x01A"[..]));
}

#[test]
fn locate_field_returns_the_data_as_it_stands() {
    let mut payload = entry(*b"CA", b"");
    payload.extend(entry(*b"ST", &[1, 0, 2]));
    assert_eq!(locate_field(&payload, (b'S', b'T')), Some(&[1u8, 0, 2][..]));
    assert_eq!(locate_field(&payload, (b'C', b'A')), Some(&[][..]));
    assert_eq!(locate_field(&payload, (b'C', b'R')), None);
}

#[test]
fn a_field_may_be_as_long_as_its_length_field_allows() {
    let long = vec![b'x'; 0xffff];
    let payload = entry(*b"ST", &long);
    assert_eq!(decode_metadata(&payload).song_title.len(), 0xffff);
}
