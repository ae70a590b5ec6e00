//! A small cursor over input bytes: the big-endian length prefix and
//! the message area that follows it.

use vstd::prelude::*;
use crate::blob::be32_val;
use crate::error::PbfParseError;

verus! {

/// A cursor over input bytes.
pub struct Parser {
    data: Vec<u8>,
    pos: usize,
}

impl Parser {
    pub closed spec fn input(&self) -> Seq<u8> {
        self.data@
    }

    pub closed spec fn position(&self) -> int {
        self.pos as int
    }

    /// A cursor at the start of the input.
    pub fn of(data: Vec<u8>) -> (r: Parser)
        ensures
            r.input() == data@,
            r.position() == 0,
    {
        Parser { data, pos: 0 }
    }

    /// Hands the input back.
    pub fn into_bytes(self) -> (r: Vec<u8>)
        ensures
            r@ == self.input(),
    {
        self.data
    }

    /// Reads a 4-byte big-endian length; the clean end of input is
    /// `Eof`.
    pub fn read_u32(&mut self) -> (r: Result<u32, PbfParseError>)
        ensures
            final(self).input() == old(self).input(),
            if old(self).position() + 4 <= old(self).input().len() {
                r matches Ok(v) && v == be32_val(old(self).input(), old(self).position())
                    && final(self).position() == old(self).position() + 4
            } else {
                r matches Err(e) && e == PbfParseError::Eof && final(self).position() == old(
                    self,
                ).position()
            },
    {
        if self.pos > self.data.len() || self.data.len() - self.pos < 4 {
            return Err(PbfParseError::Eof);
        }
        let b0 = self.data[self.pos] as u32;
        let b1 = self.data[self.pos + 1] as u32;
        let b2 = self.data[self.pos + 2] as u32;
        let b3 = self.data[self.pos + 3] as u32;
        self.pos = self.pos + 4;
        Ok(b0 * 0x1000000 + b1 * 0x10000 + b2 * 0x100 + b3)
    }

    /// Reads the next `length` bytes, a serialized message's area; too
    /// few leaves the cursor in place and reports the truncation.
    pub fn read_message(&mut self, length: usize) -> (r: Result<Vec<u8>, PbfParseError>)
        ensures
            final(self).input() == old(self).input(),
            if old(self).position() + length <= old(self).input().len() {
                r matches Ok(v) && v@ == old(self).input().subrange(
                    old(self).position(),
                    old(self).position() + length,
                ) && final(self).position() == old(self).position() + length
            } else {
                r matches Err(e) && e == PbfParseError::Io(
                    crate::error::IoErrorKind::UnexpectedEof,
                ) && final(self).position() == old(self).position()
            },
    {
        if self.pos > self.data.len() || self.data.len() - self.pos < length {
            return Err(PbfParseError::Io(crate::error::IoErrorKind::UnexpectedEof));
        }
        let buffer = vstd::slice::slice_to_vec(
            vstd::slice::slice_subrange(self.data.as_slice(), self.pos, self.pos + length),
        );
        self.pos = self.pos + length;
        Ok(buffer)
    }
}

} // verus!
