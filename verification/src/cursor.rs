use vstd::prelude::*;
use vstd::slice::slice_subrange;

verus! {

/// A read position inside a borrowed byte buffer.
///
/// The position never passes the end of the buffer; nothing else is kept
/// between two reads.
pub struct Cursor<'a> {
    bytes: &'a [u8],
    pos: usize,
}

impl<'a> Cursor<'a> {
    /// The whole buffer, read and unread.
    pub closed spec fn buffer(&self) -> Seq<u8> {
        self.bytes@
    }

    /// The index of the next byte to be read.
    pub closed spec fn position(&self) -> int {
        self.pos as int
    }

    /// What holds of every cursor: the position lies inside the buffer, or
    /// at its end.
    #[verifier::type_invariant]
    pub open spec fn in_bounds(&self) -> bool {
        0 <= self.position() <= self.buffer().len()
    }

    /// A cursor at the start of `bytes`.
    pub fn new(bytes: &'a [u8]) -> (cursor: Self)
        ensures
            cursor.buffer() == bytes@,
            cursor.position() == 0,
    {
        Cursor { bytes, pos: 0 }
    }

    /// How many bytes have been read so far.
    pub fn consumed(&self) -> (n: usize)
        ensures
            n == self.position(),
            n <= self.buffer().len(),
    {
        proof {
            use_type_invariant(self);
        }
        self.pos
    }

    /// How many bytes are still unread.
    pub fn remaining(&self) -> (n: usize)
        ensures
            n == self.buffer().len() - self.position(),
    {
        proof {
            use_type_invariant(self);
        }
        self.bytes.len() - self.pos
    }

    /// Reads one byte, if one is left.
    pub fn next_byte(&mut self) -> (byte: Option<u8>)
        ensures
            final(self).buffer() == old(self).buffer(),
            0 <= old(self).position() <= old(self).buffer().len(),
            byte == if old(self).position() < old(self).buffer().len() {
                Some(old(self).buffer()[old(self).position()])
            } else {
                None
            },
            final(self).position() == if byte is Some {
                old(self).position() + 1
            } else {
                old(self).position()
            },
    {
        proof {
            use_type_invariant(&*self);
        }
        if self.pos < self.bytes.len() {
            let byte: u8 = self.bytes[self.pos];
            self.pos = self.pos + 1;
            Some(byte)
        } else {
            None
        }
    }

    /// Reads the next `count` bytes at once, or nothing at all where fewer
    /// are left.
    pub fn take(&mut self, count: usize) -> (chunk: Option<&'a [u8]>)
        ensures
            final(self).buffer() == old(self).buffer(),
            0 <= old(self).position() <= old(self).buffer().len(),
            chunk is Some <==> old(self).position() + count <= old(self).buffer().len(),
            chunk is Some ==> chunk->0@ == old(self).buffer().subrange(
                old(self).position(),
                old(self).position() + count,
            ),
            final(self).position() == if chunk is Some {
                old(self).position() + count
            } else {
                old(self).position()
            },
    {
        proof {
            use_type_invariant(&*self);
        }
        if count <= self.bytes.len() - self.pos {
            let chunk = slice_subrange(self.bytes, self.pos, self.pos + count);
            self.pos = self.pos + count;
            Some(chunk)
        } else {
            None
        }
    }

    /// Moves to the end of the buffer, leaving nothing unread.
    pub fn exhaust(&mut self)
        ensures
            final(self).buffer() == old(self).buffer(),
            final(self).position() == old(self).buffer().len(),
    {
        self.pos = self.bytes.len();
    }
}

} // verus!
