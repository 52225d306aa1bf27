use mmftool::cursor::Cursor;
use mmftool::error::ParseError;

#[test]
fn new_cursor_covers_the_whole_buffer() {
    let bytes = [1u8, 2, 3, 4, 5];
    let cursor = Cursor::new(&bytes);
    assert_eq!(cursor.position(), 0);
    assert_eq!(cursor.remaining(), 5);
    assert_eq!(cursor.rest(), &bytes[..]);
}

#[test]
fn read_exact_returns_the_next_bytes_and_advances() {
    let bytes = [10u8, 20, 30, 40, 50];
    let mut cursor = Cursor::new(&bytes);
    assert_eq!(cursor.read_exact(2), Ok(&[10u8, 20][..]));
    assert_eq!(cursor.position(), 2);
    assert_eq!(cursor.remaining(), 3);
    assert_eq!(cursor.read_exact(3), Ok(&[30u8, 40, 50][..]));
    assert_eq!(cursor.remaining(), 0);
}

#[test]
fn read_exact_of_nothing_succeeds_at_the_end() {
    let bytes = [7u8];
    let mut cursor = Cursor::new(&bytes);
    assert_eq!(cursor.read_exact(1), Ok(&[7u8][..]));
    assert_eq!(cursor.read_exact(0), Ok(&[][..]));
    assert_eq!(cursor.position(), 1);
}

#[test]
fn read_exact_past_the_end_fails_and_stays_put() {
    let bytes = [1u8, 2, 3];
    let mut cursor = Cursor::new(&bytes);
    assert_eq!(cursor.read_exact(1), Ok(&[1u8][..]));
    assert_eq!(cursor.read_exact(3), Err(ParseError::UnexpectedEof));
    assert_eq!(cursor.position(), 1);
    assert_eq!(cursor.remaining(), 2);
    assert_eq!(cursor.read_exact(usize::MAX), Err(ParseError::UnexpectedEof));
    assert_eq!(cursor.read_exact(2), Ok(&[2u8, 3][..]));
}

#[test]
fn skip_advances_or_fails_like_a_read() {
    let bytes = [1u8, 2, 3, 4];
    let mut cursor = Cursor::new(&bytes);
    assert_eq!(cursor.skip(3), Ok(()));
    assert_eq!(cursor.position(), 3);
    assert_eq!(cursor.skip(2), Err(ParseError::UnexpectedEof));
    assert_eq!(cursor.position(), 3);
    assert_eq!(cursor.skip(1), Ok(()));
    assert_eq!(cursor.remaining(), 0);
}

#[test]
fn read_u8_reads_one_byte() {
    let bytes = [0xabu8];
    let mut cursor = Cursor::new(&bytes);
    assert_eq!(cursor.read_u8(), Ok(0xab));
    assert_eq!(cursor.read_u8(), Err(ParseError::UnexpectedEof));
}

#[test]
fn read_u16_be_puts_the_first_byte_highest() {
    let bytes = [0x12u8, 0x34, 0xff, 0xff, 0x00];
    let mut cursor = Cursor::new(&bytes);
    assert_eq!(cursor.read_u16_be(), Ok(0x1234));
    assert_eq!(cursor.read_u16_be(), Ok(0xffff));
    assert_eq!(cursor.read_u16_be(), Err(ParseError::UnexpectedEof));
    assert_eq!(cursor.position(), 4);
}

#[test]
fn read_u32_be_puts_the_first_byte_highest() {
    let bytes = [0x12u8, 0x34, 0x56, 0x78, 0xff, 0xff, 0xff, 0xff, 0, 0, 1];
    let mut cursor = Cursor::new(&bytes);
    assert_eq!(cursor.read_u32_be(), Ok(0x12345678));
    assert_eq!(cursor.read_u32_be(), Ok(u32::MAX));
    assert_eq!(cursor.read_u32_be(), Err(ParseError::UnexpectedEof));
    assert_eq!(cursor.position(), 8);
}

#[test]
fn take_hands_out_a_range_within_the_range() {
    let bytes = [1u8, 2, 3, 4, 5, 6];
    let mut cursor = Cursor::new(&bytes);
    assert_eq!(cursor.skip(1), Ok(()));
    let mut inner = cursor.take(3).unwrap();
    assert_eq!(cursor.position(), 4);
    assert_eq!(inner.position(), 1);
    assert_eq!(inner.remaining(), 3);
    assert_eq!(inner.rest(), &[2u8, 3, 4][..]);
    // The inner cursor ends where its range ends, not where the buffer ends.
    assert_eq!(inner.read_exact(4), Err(ParseError::UnexpectedEof));
    assert_eq!(inner.read_exact(3), Ok(&[2u8, 3, 4][..]));
    assert_eq!(cursor.take(3).err(), Some(ParseError::UnexpectedEof));
    assert_eq!(cursor.position(), 4);
}

#[test]
fn slice_is_bounded_by_the_buffer_not_the_range() {
    let bytes = [1u8, 2, 3, 4, 5, 6];
    let mut cursor = Cursor::new(&bytes);
    let inner = cursor.take(2).unwrap();
    assert_eq!(inner.slice(4, 2), Ok(&[5u8, 6][..]));
    assert_eq!(inner.slice(6, 0), Ok(&[][..]));
    assert_eq!(inner.slice(0, 6), Ok(&bytes[..]));
    assert_eq!(inner.slice(5, 2), Err(ParseError::OutOfBounds));
    assert_eq!(inner.slice(7, 0), Err(ParseError::OutOfBounds));
    assert_eq!(inner.slice(usize::MAX, 2), Err(ParseError::OutOfBounds));
    assert_eq!(inner.slice(2, usize::MAX), Err(ParseError::OutOfBounds));
    // Slicing does not move the cursor.
    assert_eq!(inner.position(), 0);
}

#[test]
fn reads_leave_the_buffer_untouched() {
    let bytes = vec![9u8, 8, 7, 6, 5, 4, 3, 2];
    let before = bytes.clone();
    let mut cursor = Cursor::new(&bytes);
    let _ = cursor.read_u32_be();
    let _ = cursor.read_u16_be();
    let _ = cursor.skip(1);
    let _ = cursor.read_exact(5);
    assert_eq!(bytes, before);
}
