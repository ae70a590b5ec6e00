//! Pull-style iteration over a file's blobs: each step reads one frame;
//! the clean end of input, or any error, ends the iteration.

use vstd::prelude::*;
use crate::blob::Blob;
use crate::blob::frame_parse;
use crate::parser::Parser;

verus! {

/// Steps through a file one blob at a time.
pub struct BlobIterator {
    data: Vec<u8>,
    pos: usize,
}

impl BlobIterator {
    pub closed spec fn input(&self) -> Seq<u8> {
        self.data@
    }

    pub closed spec fn position(&self) -> int {
        self.pos as int
    }

    /// An iterator over the parser's input, from the start.
    pub fn of(input: Parser) -> (r: BlobIterator)
        ensures
            r.input() == input.input(),
            r.position() == 0,
    {
        BlobIterator { data: input.into_bytes(), pos: 0 }
    }

    /// The next blob, or nothing at the end of input or on a frame that
    /// does not parse.
    pub fn next(&mut self) -> (r: Option<Blob>)
        ensures
            final(self).input() == old(self).input(),
            match frame_parse(old(self).input(), old(self).position()) {
                Ok(p) => r matches Some(b) && b@ == p.0 && final(self).position() == p.1,
                Err(e) => r is None && final(self).position() == old(self).position(),
            },
    {
        if self.pos > self.data.len() {
            return None;
        }
        match Blob::parse(self.data.as_slice(), self.pos) {
            Ok((blob, next)) => {
                self.pos = next;
                Some(blob)
            },
            Err(_) => None,
        }
    }
}

/// A placeholder for entity-level pull iteration: the visitor API in
/// this crate's readers is the supported traversal; this type only
/// carries the blob iterator and its progress.
pub struct OsmIterator {
    pub blob_iterator: BlobIterator,
    pub blob: Option<Blob>,
    pub cursor: u64,
}

impl OsmIterator {
    /// Wraps a blob iterator.
    pub fn of(blob_iterator: BlobIterator) -> (r: OsmIterator)
        ensures
            r.blob is None,
            r.cursor == 0,
    {
        OsmIterator { blob_iterator, blob: None, cursor: 0 }
    }
}

} // verus!
