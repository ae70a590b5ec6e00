//! The framed blob codec: a file is a run of frames, each a 4-byte
//! big-endian header length, a `BlobHeader`, and a `Blob` body. Parsing
//! is specified by `frame_parse`; writing a blob is proved to append a
//! frame that parses back to it.

use vstd::prelude::*;
use crate::error::IoErrorKind;
use crate::error::PbfParseError;
use crate::fileformat::{
    blob_body_enc, blob_body_parse, blob_header_enc, blob_header_parse, encode_blob_body,
    encode_blob_header, lemma_blob_body_roundtrip, lemma_blob_header_roundtrip, parse_blob_body,
    parse_blob_header, BlobBodyModel, BlobHeaderModel,
};
use crate::wire::{
    bytes_eq, i32_as_u32, key_enc, lemma_subrange_concat, lemma_varint_enc_len, varint_enc,
};
use crate::zlib::{deflate, inflate, inflate_of};

verus! {

/// Greatest accepted length of a serialized `BlobHeader`.
pub const MAX_HEADER_LENGTH: u32 = 64 * 1024;

/// Greatest accepted length of a serialized `Blob` body.
pub const MAX_BODY_LENGTH: u32 = 32 * 1024 * 1024;

/// Which of the two block kinds a blob carries.
#[derive(Debug, Eq, PartialEq, Copy, Clone, Structural)]
pub enum BlobType {
    HEADER,
    DATA,
}

/// The type string of a header blob, `"OSMHeader"`.
pub open spec fn header_type_bytes() -> Seq<u8> {
    seq![0x4Fu8, 0x53u8, 0x4Du8, 0x48u8, 0x65u8, 0x61u8, 0x64u8, 0x65u8, 0x72u8]
}

/// The type string of a data blob, `"OSMData"`.
pub open spec fn data_type_bytes() -> Seq<u8> {
    seq![0x4Fu8, 0x53u8, 0x4Du8, 0x44u8, 0x61u8, 0x74u8, 0x61u8]
}

pub open spec fn type_bytes_of(t: BlobType) -> Seq<u8> {
    match t {
        BlobType::HEADER => header_type_bytes(),
        BlobType::DATA => data_type_bytes(),
    }
}

pub open spec fn type_of_bytes(b: Seq<u8>) -> Option<BlobType> {
    if b == header_type_bytes() {
        Some(BlobType::HEADER)
    } else if b == data_type_bytes() {
        Some(BlobType::DATA)
    } else {
        None
    }
}

impl BlobType {
    /// The type string this kind is written as.
    pub fn to_bytes(self) -> (r: Vec<u8>)
        ensures
            r@ == type_bytes_of(self),
    {
        let mut v: Vec<u8> = Vec::new();
        v.push(0x4F);
        v.push(0x53);
        v.push(0x4D);
        match self {
            BlobType::HEADER => {
                v.push(0x48);
                v.push(0x65);
                v.push(0x61);
                v.push(0x64);
                v.push(0x65);
                v.push(0x72);
                assert(v@ =~= header_type_bytes());
            },
            BlobType::DATA => {
                v.push(0x44);
                v.push(0x61);
                v.push(0x74);
                v.push(0x61);
                assert(v@ =~= data_type_bytes());
            },
        }
        v
    }

    /// Maps a type string to its kind; an unknown string is refused.
    pub fn from_bytes(b: &[u8]) -> (r: Result<BlobType, PbfParseError>)
        ensures
            match type_of_bytes(b@) {
                Some(t) => r matches Ok(t2) && t2 == t,
                None => r matches Err(e) && e == PbfParseError::InvalidBlobType,
            },
    {
        let header = BlobType::HEADER.to_bytes();
        let data = BlobType::DATA.to_bytes();
        if bytes_eq(b, header.as_slice()) {
            Ok(BlobType::HEADER)
        } else if bytes_eq(b, data.as_slice()) {
            Ok(BlobType::DATA)
        } else {
            Err(PbfParseError::InvalidBlobType)
        }
    }
}

/// One decoded blob: its kind and its payload, already decompressed.
#[derive(Debug)]
pub struct Blob {
    pub data_type: BlobType,
    pub data: Vec<u8>,
}

pub struct BlobModel {
    pub data_type: BlobType,
    pub data: Seq<u8>,
}

impl View for Blob {
    type V = BlobModel;

    open spec fn view(&self) -> BlobModel {
        BlobModel { data_type: self.data_type, data: self.data@ }
    }
}

/// The four big-endian bytes of a 32-bit length.
pub open spec fn be32_enc(n: u32) -> Seq<u8> {
    seq![
        (n / 0x1000000) as u8,
        ((n / 0x10000) % 0x100) as u8,
        ((n / 0x100) % 0x100) as u8,
        (n % 0x100) as u8,
    ]
}

/// The 32-bit value of four big-endian bytes at `pos`.
pub open spec fn be32_val(s: Seq<u8>, pos: int) -> u32
    recommends
        0 <= pos,
        pos + 4 <= s.len(),
{
    (s[pos] * 0x1000000 + s[pos + 1] * 0x10000 + s[pos + 2] * 0x100 + s[pos + 3]) as u32
}

pub proof fn lemma_be32_roundtrip(s: Seq<u8>, pos: int, n: u32)
    requires
        0 <= pos,
        pos + 4 <= s.len(),
        s.subrange(pos, pos + 4) == be32_enc(n),
    ensures
        be32_val(s, pos) == n,
{
    assert(s[pos] == be32_enc(n)[0]);
    assert(s[pos + 1] == be32_enc(n)[1]);
    assert(s[pos + 2] == be32_enc(n)[2]);
    assert(s[pos + 3] == be32_enc(n)[3]);
}

fn read_be32(s: &[u8], pos: usize) -> (r: u32)
    requires
        pos + 4 <= s@.len(),
    ensures
        r == be32_val(s@, pos as int),
{
    (s[pos] as u32) * 0x1000000 + (s[pos + 1] as u32) * 0x10000 + (s[pos + 2] as u32) * 0x100 + (
    s[pos + 3] as u32)
}

fn write_be32(out: &mut Vec<u8>, n: u32)
    ensures
        final(out)@ == old(out)@ + be32_enc(n),
{
    out.push((n / 0x1000000) as u8);
    out.push(((n / 0x10000) % 0x100) as u8);
    out.push(((n / 0x100) % 0x100) as u8);
    out.push((n % 0x100) as u8);
    assert(final(out)@ =~= old(out)@ + be32_enc(n));
}

/// How one frame at `pos` parses: the blob and the position just past the
/// frame, or the error the format gives for it. `Eof` is only the clean
/// end of input where no frame begins.
pub open spec fn frame_parse(s: Seq<u8>, pos: int) -> Result<(BlobModel, int), PbfParseError> {
    if pos + 4 > s.len() {
        Err(PbfParseError::Eof)
    } else {
        let l1 = be32_val(s, pos);
        if l1 >= MAX_HEADER_LENGTH {
            Err(PbfParseError::InvalidHeaderLength(l1))
        } else if pos + 4 + l1 > s.len() {
            Err(PbfParseError::Io(IoErrorKind::UnexpectedEof))
        } else {
            match blob_header_parse(s, pos + 4, pos + 4 + l1) {
                None => Err(PbfParseError::InvalidMessage),
                Some(h) => {
                    let l2 = i32_as_u32(h.datasize);
                    let dstart = pos + 4 + l1;
                    if l2 > MAX_BODY_LENGTH {
                        Err(PbfParseError::InvalidBodyLength(l2))
                    } else if dstart + l2 > s.len() {
                        Err(PbfParseError::Io(IoErrorKind::UnexpectedEof))
                    } else {
                        match blob_body_parse(s, dstart, dstart + l2) {
                            None => Err(PbfParseError::InvalidMessage),
                            Some(b) => match type_of_bytes(h.type_bytes) {
                                None => Err(PbfParseError::InvalidBlobType),
                                Some(t) => match b.zlib_data {
                                    Some(z) => match inflate_of(z) {
                                        Some(d) => Ok(
                                            (
                                                BlobModel { data_type: t, data: d },
                                                dstart + l2,
                                            ),
                                        ),
                                        None => Err(PbfParseError::Io(IoErrorKind::Other)),
                                    },
                                    None => match b.raw {
                                        Some(d) => Ok(
                                            (
                                                BlobModel { data_type: t, data: d },
                                                dstart + l2,
                                            ),
                                        ),
                                        None => Err(PbfParseError::InvalidBlobFormat),
                                    },
                                },
                            },
                        }
                    }
                },
            }
        }
    }
}

/// The frame this library writes: the encoded header's length, the
/// header naming the body's length, and the body carrying the payload
/// compressed as `z` with its raw length recorded.
pub open spec fn frame_enc(t: BlobType, raw_len: i32, z: Seq<u8>) -> Seq<u8> {
    let body = blob_body_enc(raw_len, z);
    let header = blob_header_enc(type_bytes_of(t), body.len() as i32);
    be32_enc(header.len() as u32) + header + body
}

impl Blob {
    /// Wraps a payload that is ready to be written.
    pub fn new(data_type: BlobType, data: Vec<u8>) -> (r: Blob)
        ensures
            r@ == (BlobModel { data_type, data: data@ }),
    {
        Blob { data_type, data }
    }

    /// Reads one frame at `pos`: its length-prefixed header, its body,
    /// and the payload, inflated when compressed.
    pub fn parse(input: &[u8], pos: usize) -> (r: Result<(Blob, usize), PbfParseError>)
        requires
            pos <= input@.len(),
        ensures
            match frame_parse(input@, pos as int) {
                Ok(p) => r matches Ok(q) && q.0@ == p.0 && q.1 as int == p.1,
                Err(e) => r matches Err(e2) && e2 == e,
            },
    {
        let (r, _) = Blob::parse_advancing(input, pos);
        r
    }

    /// Reads one frame like `parse`, and also says where a driver that
    /// wants to keep going should read next: past the frame when its
    /// extent could be established, at the end of input when not.
    pub fn parse_advancing(input: &[u8], pos: usize) -> (r: (
        Result<(Blob, usize), PbfParseError>,
        usize,
    ))
        requires
            pos <= input@.len(),
        ensures
            match frame_parse(input@, pos as int) {
                Ok(p) => r.0 matches Ok(q) && q.0@ == p.0 && q.1 as int == p.1,
                Err(e) => r.0 matches Err(e2) && e2 == e,
            },
            pos <= r.1 <= input@.len(),
            !(r.0 matches Err(e) && e == PbfParseError::Eof) ==> r.1 > pos,
    {
        let limit = input.len();
        if input.len() - pos < 4 {
            return (Err(PbfParseError::Eof), limit);
        }
        let l1 = read_be32(input, pos);
        if l1 >= MAX_HEADER_LENGTH {
            return (Err(PbfParseError::InvalidHeaderLength(l1)), limit);
        }
        if (l1 as usize) > input.len() - (pos + 4) {
            return (Err(PbfParseError::Io(IoErrorKind::UnexpectedEof)), limit);
        }
        let hstart = pos + 4;
        let hend = hstart + l1 as usize;
        let header = match parse_blob_header(input, hstart, hend) {
            Some(h) => h,
            None => {
                return (Err(PbfParseError::InvalidMessage), limit);
            },
        };
        let l2: u32 = if header.datasize >= 0 {
            header.datasize as u32
        } else {
            ((header.datasize as i64) + 0x100000000) as u32
        };
        if l2 > MAX_BODY_LENGTH {
            return (Err(PbfParseError::InvalidBodyLength(l2)), limit);
        }
        if (l2 as usize) > input.len() - hend {
            return (Err(PbfParseError::Io(IoErrorKind::UnexpectedEof)), limit);
        }
        let dend = hend + l2 as usize;
        let body = match parse_blob_body(input, hend, dend) {
            Some(b) => b,
            None => {
                return (Err(PbfParseError::InvalidMessage), dend);
            },
        };
        let data_type = match BlobType::from_bytes(header.type_bytes.as_slice()) {
            Ok(t) => t,
            Err(e) => {
                return (Err(e), dend);
            },
        };
        match body.zlib_data {
            Some(z) => match inflate(z.as_slice()) {
                Some(d) => (Ok((Blob { data_type, data: d }, dend)), dend),
                None => (Err(PbfParseError::Io(IoErrorKind::Other)), dend),
            },
            None => match body.raw {
                Some(d) => (Ok((Blob { data_type, data: d }, dend)), dend),
                None => (Err(PbfParseError::InvalidBlobFormat), dend),
            },
        }
    }

    /// Appends one frame carrying this blob's payload, compressed: the
    /// length-prefixed header, then the body with the zlib payload and
    /// raw size. The frame is proved to parse back to this blob; the one
    /// refusal, exactly when the serialized body would pass the 32 MiB
    /// bound, leaves `out` alone.
    pub fn write(&self, out: &mut Vec<u8>) -> (r: Result<(), PbfParseError>)
        requires
            self.data@.len() <= 0x7FFFFFFF,
        ensures
            r is Ok <==> blob_body_enc(
                self.data@.len() as i32,
                crate::zlib::deflate_of(self.data@),
            ).len() <= MAX_BODY_LENGTH,
            match r {
                Ok(()) => {
                    &&& final(out)@ == old(out)@ + frame_enc(
                        self.data_type,
                        self.data@.len() as i32,
                        crate::zlib::deflate_of(self.data@),
                    )
                    &&& final(out)@.len() > old(out)@.len()
                    &&& final(out)@.subrange(0, old(out)@.len() as int) == old(out)@
                    &&& frame_parse(final(out)@, old(out)@.len() as int) matches Ok(p) && p.0
                        == self@ && p.1 == final(out)@.len()
                },
                Err(e) => {
                    &&& e matches PbfParseError::InvalidBodyLength(n) && n > MAX_BODY_LENGTH
                    &&& *final(out) == *old(out)
                },
            },
    {
        let z = deflate(self.data.as_slice());
        let mut body: Vec<u8> = Vec::new();
        encode_blob_body(&mut body, self.data.len() as i32, z.as_slice());
        if body.len() > MAX_BODY_LENGTH as usize {
            let n: u32 = if body.len() > u32::MAX as usize {
                u32::MAX
            } else {
                body.len() as u32
            };
            return Err(PbfParseError::InvalidBodyLength(n));
        }
        proof {
            lemma_blob_body_enc_len_lower(self.data@.len() as i32, z@);
        }
        let tb = self.data_type.to_bytes();
        let mut header: Vec<u8> = Vec::new();
        encode_blob_header(&mut header, tb.as_slice(), body.len() as i32);
        proof {
            lemma_blob_header_enc_len(type_bytes_of(self.data_type), body@.len() as i32);
        }
        write_be32(out, header.len() as u32);
        out.extend_from_slice(header.as_slice());
        out.extend_from_slice(body.as_slice());
        proof {
            let whole = frame_enc(self.data_type, self.data@.len() as i32, z@);
            assert(final(out)@ =~= old(out)@ + whole);
            assert(final(out)@.subrange(
                old(out)@.len() as int,
                old(out)@.len() + whole.len() as int,
            ) =~= whole);
            lemma_frame_roundtrip(
                final(out)@,
                old(out)@.len() as int,
                self.data_type,
                self.data@,
                z@,
            );
            assert(final(out)@.subrange(0, old(out)@.len() as int) =~= old(out)@);
        }
        Ok(())
    }
}

/// The encoded `BlobHeader` is short: its two known type strings and two
/// varints never reach the 64 KiB header bound.
proof fn lemma_blob_header_enc_len(tb: Seq<u8>, ds: i32)
    requires
        tb.len() <= 9,
    ensures
        blob_header_enc(tb, ds).len() <= 31,
        blob_header_enc(tb, ds).len() >= 1,
{
    lemma_varint_enc_len(tb.len());
    lemma_varint_enc_len(crate::wire::i32_as_varint_val(ds) as nat);
    assert(key_enc(1, crate::wire::WIRE_LEN).len() == 1);
    assert(key_enc(3, crate::wire::WIRE_VARINT).len() == 1);
    assert(varint_enc(tb.len()).len() <= 10);
}

/// The encoded `Blob` body is no shorter than its compressed payload.
proof fn lemma_blob_body_enc_len_lower(rs: i32, z: Seq<u8>)
    ensures
        blob_body_enc(rs, z).len() >= z.len() + 3,
{
    lemma_varint_enc_len(crate::wire::i32_as_varint_val(rs) as nat);
    lemma_varint_enc_len(z.len());
    assert(key_enc(2, crate::wire::WIRE_VARINT).len() == 1);
    assert(key_enc(3, crate::wire::WIRE_LEN).len() == 1);
}

/// A frame written by this library parses back to the blob it carries.
pub proof fn lemma_frame_roundtrip(s: Seq<u8>, pos: int, t: BlobType, raw: Seq<u8>, z: Seq<u8>)
    requires
        0 <= pos,
        raw.len() <= 0x7FFFFFFF,
        inflate_of(z) == Some(raw),
        blob_body_enc(raw.len() as i32, z).len() <= MAX_BODY_LENGTH,
        pos + frame_enc(t, raw.len() as i32, z).len() <= s.len(),
        s.subrange(pos, pos + frame_enc(t, raw.len() as i32, z).len()) == frame_enc(
            t,
            raw.len() as i32,
            z,
        ),
    ensures
        frame_parse(s, pos) == Ok::<(BlobModel, int), PbfParseError>(
            (
                BlobModel { data_type: t, data: raw },
                pos + frame_enc(t, raw.len() as i32, z).len(),
            ),
        ),
{
    let rl = raw.len() as i32;
    let body = blob_body_enc(rl, z);
    let tb = type_bytes_of(t);
    let ds = body.len() as i32;
    let header = blob_header_enc(tb, ds);
    let pre = be32_enc(header.len() as u32);
    let whole = frame_enc(t, rl, z);
    lemma_blob_header_enc_len(tb, ds);
    lemma_blob_body_enc_len_lower(rl, z);
    assert(whole =~= pre + (header + body));
    lemma_subrange_concat(s, pos, pre, header + body);
    lemma_subrange_concat(s, pos + 4, header, body);
    lemma_be32_roundtrip(s, pos, header.len() as u32);
    let l1 = header.len() as u32;
    assert(l1 < MAX_HEADER_LENGTH);
    lemma_blob_header_roundtrip(s, pos + 4, tb, ds);
    assert(blob_header_parse(s, pos + 4, pos + 4 + l1) == Some(
        BlobHeaderModel { type_bytes: tb, datasize: ds },
    ));
    assert(i32_as_u32(ds) == body.len());
    let dstart = pos + 4 + l1;
    lemma_blob_body_roundtrip(s, dstart, rl, z);
    assert(blob_body_parse(s, dstart, dstart + body.len()) == Some(
        BlobBodyModel {
            raw: None,
            raw_size: Some(rl),
            zlib_data: Some(z),
            other_data: false,
        },
    ));
    assert(type_of_bytes(tb) == Some(t));
}

} // verus!
