//! A bounds-checked sequential reader over a range of an immutable buffer.

use crate::error::ParseError;
use vstd::prelude::*;
use vstd::slice::slice_subrange;

verus! {

/// The value of a two-byte big-endian field.
pub open spec fn be16(b: Seq<u8>) -> int
    recommends
        b.len() == 2,
{
    b[0] * 0x100 + b[1]
}

/// The value of a four-byte big-endian field.
pub open spec fn be32(b: Seq<u8>) -> int
    recommends
        b.len() == 4,
{
    b[0] * 0x100_0000 + b[1] * 0x1_0000 + b[2] * 0x100 + b[3]
}

/// What a cursor stands for: a buffer and the part `pos..end` of it that is
/// still to be read.
pub struct CursorView {
    pub buffer: Seq<u8>,
    pub pos: int,
    pub end: int,
}

impl CursorView {
    /// Whether the range lies within the buffer. This holds of every cursor.
    pub open spec fn in_bounds(self) -> bool {
        0 <= self.pos <= self.end <= self.buffer.len()
    }

    /// The number of bytes left in the range.
    pub open spec fn remaining(self) -> int {
        self.end - self.pos
    }

    /// The next `n` bytes of the range.
    pub open spec fn peek(self, n: int) -> Seq<u8> {
        self.buffer.subrange(self.pos, self.pos + n)
    }

    /// The same cursor after `n` bytes have been consumed.
    pub open spec fn advance(self, n: int) -> CursorView {
        CursorView { pos: self.pos + n, ..self }
    }

    /// The cursor over the next `n` bytes alone.
    pub open spec fn prefix(self, n: int) -> CursorView {
        CursorView { end: self.pos + n, ..self }
    }
}

/// A reader over the range `pos..end` of a byte buffer. Reads never touch
/// the buffer's contents and never step outside the range.
pub struct Cursor<'a> {
    bytes: &'a [u8],
    pos: usize,
    end: usize,
}

impl<'a> View for Cursor<'a> {
    type V = CursorView;

    closed spec fn view(&self) -> CursorView {
        CursorView { buffer: self.bytes@, pos: self.pos as int, end: self.end as int }
    }
}

impl<'a> Cursor<'a> {
    #[verifier::type_invariant]
    spec fn well_formed(self) -> bool {
        self.pos <= self.end <= self.bytes@.len()
    }

    /// A cursor over the whole of `bytes`.
    pub fn new(bytes: &'a [u8]) -> (c: Self)
        ensures
            c@ == (CursorView { buffer: bytes@, pos: 0, end: bytes@.len() as int }),
    {
        Cursor { bytes, pos: 0, end: bytes.len() }
    }

    /// The offset in the buffer of the next byte to be read.
    pub fn position(&self) -> (p: usize)
        ensures
            p == self@.pos,
            self@.in_bounds(),
    {
        proof {
            use_type_invariant(self);
        }
        self.pos
    }

    /// The number of bytes left in the range.
    pub fn remaining(&self) -> (n: usize)
        ensures
            n == self@.remaining(),
            self@.in_bounds(),
    {
        proof {
            use_type_invariant(self);
        }
        self.end - self.pos
    }

    /// The bytes left in the range. The cursor does not move.
    pub fn rest(&self) -> (s: &'a [u8])
        ensures
            s@ == self@.peek(self@.remaining()),
    {
        proof {
            use_type_invariant(self);
        }
        slice_subrange(self.bytes, self.pos, self.end)
    }

    /// Returns the next `n` bytes and steps past them, or fails with
    /// `UnexpectedEof`, leaving the cursor where it was, if fewer remain.
    pub fn read_exact(&mut self, n: usize) -> (r: Result<&'a [u8], ParseError>)
        ensures
            old(self)@.in_bounds(),
            match r {
                Ok(s) => n <= old(self)@.remaining() && s@ == old(self)@.peek(n as int)
                    && s@.len() == n && final(self)@ == old(self)@.advance(n as int),
                Err(e) => n > old(self)@.remaining() && e == ParseError::UnexpectedEof
                    && final(self)@ == old(self)@,
            },
    {
        proof {
            use_type_invariant(&*self);
        }
        if n > self.end - self.pos {
            return Err(ParseError::UnexpectedEof);
        }
        let start = self.pos;
        let s = slice_subrange(self.bytes, start, start + n);
        self.pos = start + n;
        Ok(s)
    }

    /// Steps past the next `n` bytes, or fails with `UnexpectedEof`, leaving
    /// the cursor where it was, if fewer remain.
    pub fn skip(&mut self, n: usize) -> (r: Result<(), ParseError>)
        ensures
            match r {
                Ok(_) => n <= old(self)@.remaining() && final(self)@ == old(self)@.advance(
                    n as int,
                ),
                Err(e) => n > old(self)@.remaining() && e == ParseError::UnexpectedEof
                    && final(self)@ == old(self)@,
            },
    {
        match self.read_exact(n) {
            Ok(_) => Ok(()),
            Err(e) => Err(e),
        }
    }

    /// Reads one byte.
    pub fn read_u8(&mut self) -> (r: Result<u8, ParseError>)
        ensures
            match r {
                Ok(v) => 1 <= old(self)@.remaining() && v == old(self)@.buffer[old(self)@.pos]
                    && final(self)@ == old(self)@.advance(1),
                Err(e) => 1 > old(self)@.remaining() && e == ParseError::UnexpectedEof
                    && final(self)@ == old(self)@,
            },
    {
        proof {
            use_type_invariant(&*self);
        }
        match self.read_exact(1) {
            Ok(s) => Ok(s[0]),
            Err(e) => Err(e),
        }
    }

    /// Reads a two-byte big-endian unsigned integer.
    pub fn read_u16_be(&mut self) -> (r: Result<u16, ParseError>)
        ensures
            match r {
                Ok(v) => 2 <= old(self)@.remaining() && v == be16(old(self)@.peek(2))
                    && final(self)@ == old(self)@.advance(2),
                Err(e) => 2 > old(self)@.remaining() && e == ParseError::UnexpectedEof
                    && final(self)@ == old(self)@,
            },
    {
        proof {
            use_type_invariant(&*self);
        }
        match self.read_exact(2) {
            Ok(s) => Ok(s[0] as u16 * 0x100 + s[1] as u16),
            Err(e) => Err(e),
        }
    }

    /// Reads a four-byte big-endian unsigned integer.
    pub fn read_u32_be(&mut self) -> (r: Result<u32, ParseError>)
        ensures
            match r {
                Ok(v) => 4 <= old(self)@.remaining() && v == be32(old(self)@.peek(4))
                    && final(self)@ == old(self)@.advance(4),
                Err(e) => 4 > old(self)@.remaining() && e == ParseError::UnexpectedEof
                    && final(self)@ == old(self)@,
            },
    {
        proof {
            use_type_invariant(&*self);
        }
        match self.read_exact(4) {
            Ok(s) => Ok(
                s[0] as u32 * 0x100_0000 + s[1] as u32 * 0x1_0000 + s[2] as u32 * 0x100
                    + s[3] as u32,
            ),
            Err(e) => Err(e),
        }
    }

    /// Splits the next `n` bytes off as a cursor of their own and steps past
    /// them, or fails with `UnexpectedEof`, leaving the cursor where it was,
    /// if fewer remain. The range handed out lies within this cursor's range.
    pub fn take(&mut self, n: usize) -> (r: Result<Cursor<'a>, ParseError>)
        ensures
            match r {
                Ok(c) => n <= old(self)@.remaining() && c@ == old(self)@.prefix(n as int)
                    && final(self)@ == old(self)@.advance(n as int),
                Err(e) => n > old(self)@.remaining() && e == ParseError::UnexpectedEof
                    && final(self)@ == old(self)@,
            },
    {
        proof {
            use_type_invariant(&*self);
        }
        if n > self.end - self.pos {
            return Err(ParseError::UnexpectedEof);
        }
        let start = self.pos;
        self.pos = start + n;
        Ok(Cursor { bytes: self.bytes, pos: start, end: start + n })
    }

    /// The `len` bytes of the buffer that start at `offset`, wherever the
    /// cursor stands, or `OutOfBounds` if they do not all lie in the buffer.
    pub fn slice(&self, offset: usize, len: usize) -> (r: Result<&'a [u8], ParseError>)
        ensures
            match r {
                Ok(s) => offset + len <= self@.buffer.len() && s@ == self@.buffer.subrange(
                    offset as int,
                    offset + len,
                ),
                Err(e) => offset + len > self@.buffer.len() && e == ParseError::OutOfBounds,
            },
    {
        let total = self.bytes.len();
        if offset > total || len > total - offset {
            return Err(ParseError::OutOfBounds);
        }
        Ok(slice_subrange(self.bytes, offset, offset + len))
    }
}

} // verus!
