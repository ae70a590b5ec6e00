//! The two framing messages of a PBF file: the `BlobHeader` that names a
//! blob's type and body length, and the `Blob` that carries the payload,
//! raw or compressed. Both are decoded and encoded here, with parsing an
//! encoded message proved to recover it.

use vstd::prelude::*;
use crate::wire::{
    field_parse, i32_as_varint_val, i32_to_varint_val, key_enc, lemma_field_parse_bounds,
    lemma_field_parse_bytes, lemma_field_parse_varint, lemma_i32_varint_roundtrip,
    lemma_subrange_concat, len_delim_enc, read_field, trunc_i32, trunc_i32_exec, varint_enc,
    write_bytes_field, write_varint_field, FieldRef, WIRE_LEN, WIRE_VARINT,
};

verus! {

/// The `BlobHeader` message: a type string and the body's exact length.
pub struct BlobHeaderMsg {
    pub type_bytes: Vec<u8>,
    pub datasize: i32,
}

#[verifier::ext_equal]
pub struct BlobHeaderModel {
    pub type_bytes: Seq<u8>,
    pub datasize: i32,
}

impl View for BlobHeaderMsg {
    type V = BlobHeaderModel;

    open spec fn view(&self) -> BlobHeaderModel {
        BlobHeaderModel { type_bytes: self.type_bytes@, datasize: self.datasize }
    }
}

pub open spec fn blob_header_init() -> BlobHeaderModel {
    BlobHeaderModel { type_bytes: Seq::empty(), datasize: 0 }
}

pub open spec fn blob_header_parse_rec(
    s: Seq<u8>,
    pos: int,
    end: int,
    acc: BlobHeaderModel,
) -> Option<BlobHeaderModel>
    decreases end - pos,
    when 0 <= pos <= end <= s.len()
    via blob_header_parse_decreases
{
    if pos == end {
        Some(acc)
    } else {
        match field_parse(s, pos) {
            None => None,
            Some(f) => if f.next > end {
                None
            } else {
                let acc2 = if f.num == 1 && f.wire == WIRE_LEN {
                    BlobHeaderModel { type_bytes: s.subrange(f.start, f.end), ..acc }
                } else if f.num == 3 && f.wire == WIRE_VARINT {
                    BlobHeaderModel { datasize: trunc_i32(f.raw), ..acc }
                } else {
                    acc
                };
                blob_header_parse_rec(s, f.next, end, acc2)
            },
        }
    }
}

#[via_fn]
proof fn blob_header_parse_decreases(s: Seq<u8>, pos: int, end: int, acc: BlobHeaderModel) {
    lemma_field_parse_bounds(s, pos);
}

/// Reads a whole `BlobHeader` message from `s[pos..end]`. Absent fields
/// keep their defaults: an empty type string and a zero length.
pub open spec fn blob_header_parse(s: Seq<u8>, pos: int, end: int) -> Option<BlobHeaderModel> {
    blob_header_parse_rec(s, pos, end, blob_header_init())
}

/// Decodes a `BlobHeader` from the given message area.
pub fn parse_blob_header(s: &[u8], start: usize, end: usize) -> (r: Option<BlobHeaderMsg>)
    requires
        start <= end <= s@.len(),
    ensures
        match blob_header_parse(s@, start as int, end as int) {
            Some(m) => r matches Some(h) && h@ == m,
            None => r is None,
        },
{
    let mut msg = BlobHeaderMsg { type_bytes: Vec::new(), datasize: 0 };
    let mut pos: usize = start;
    loop
        invariant
            start <= pos <= end <= s@.len(),
            blob_header_parse(s@, start as int, end as int) == blob_header_parse_rec(
                s@,
                pos as int,
                end as int,
                msg@,
            ),
        decreases end - pos,
    {
        if pos == end {
            return Some(msg);
        }
        proof {
            lemma_field_parse_bounds(s@, pos as int);
        }
        match read_field(s, pos) {
            None => {
                return None;
            },
            Some((num, fref, next)) => {
                if next > end {
                    return None;
                }
                match fref {
                    FieldRef::Bytes(a, b) => {
                        if num == 1 {
                            msg.type_bytes = vstd::slice::slice_to_vec(
                                vstd::slice::slice_subrange(s, a, b),
                            );
                        }
                    },
                    FieldRef::Varint(v) => {
                        if num == 3 {
                            msg.datasize = trunc_i32_exec(v);
                        }
                    },
                    FieldRef::Skip => {},
                }
                pos = next;
            },
        }
    }
}

/// The encoding this library writes for a `BlobHeader`: the type string,
/// then the body length.
pub open spec fn blob_header_enc(type_bytes: Seq<u8>, datasize: i32) -> Seq<u8> {
    key_enc(1, WIRE_LEN) + len_delim_enc(type_bytes) + key_enc(3, WIRE_VARINT) + varint_enc(
        i32_as_varint_val(datasize) as nat,
    )
}

/// Appends the encoding of a `BlobHeader`.
pub fn encode_blob_header(out: &mut Vec<u8>, type_bytes: &[u8], datasize: i32)
    ensures
        final(out)@ == old(out)@ + blob_header_enc(type_bytes@, datasize),
{
    write_bytes_field(out, 1, type_bytes);
    write_varint_field(out, 3, i32_to_varint_val(datasize));
    assert(final(out)@ =~= old(out)@ + blob_header_enc(type_bytes@, datasize));
}

/// Parsing an encoded `BlobHeader` recovers its fields.
pub proof fn lemma_blob_header_roundtrip(s: Seq<u8>, pos: int, tb: Seq<u8>, ds: i32)
    requires
        0 <= pos,
        tb.len() <= u64::MAX,
        pos + blob_header_enc(tb, ds).len() <= s.len(),
        s.subrange(pos, pos + blob_header_enc(tb, ds).len()) == blob_header_enc(tb, ds),
    ensures
        blob_header_parse(s, pos, pos + blob_header_enc(tb, ds).len()) == Some(
            BlobHeaderModel { type_bytes: tb, datasize: ds },
        ),
{
    let f1 = key_enc(1, WIRE_LEN) + len_delim_enc(tb);
    let f2 = key_enc(3, WIRE_VARINT) + varint_enc(i32_as_varint_val(ds) as nat);
    let end = pos + blob_header_enc(tb, ds).len();
    assert(blob_header_enc(tb, ds) =~= f1 + f2);
    lemma_subrange_concat(s, pos, f1, f2);
    lemma_field_parse_bytes(s, pos, 1, tb);
    let p1 = pos + f1.len();
    lemma_field_parse_varint(s, p1, 3, i32_as_varint_val(ds));
    lemma_i32_varint_roundtrip(ds);
    let acc1 = BlobHeaderModel { type_bytes: tb, datasize: 0 };
    let acc2 = BlobHeaderModel { type_bytes: tb, datasize: ds };
    assert(blob_header_parse_rec(s, pos, end, blob_header_init()) == blob_header_parse_rec(
        s,
        p1,
        end,
        acc1,
    ));
    assert(blob_header_parse_rec(s, p1, end, acc1) == blob_header_parse_rec(s, end, end, acc2));
    assert(blob_header_parse_rec(s, end, end, acc2) == Some(acc2));
}

/// The `Blob` message: at most one payload variant, plus the raw size.
/// `other_data` records that a compression variant this library does not
/// read was present.
pub struct BlobBodyMsg {
    pub raw: Option<Vec<u8>>,
    pub raw_size: Option<i32>,
    pub zlib_data: Option<Vec<u8>>,
    pub other_data: bool,
}

#[verifier::ext_equal]
pub struct BlobBodyModel {
    pub raw: Option<Seq<u8>>,
    pub raw_size: Option<i32>,
    pub zlib_data: Option<Seq<u8>>,
    pub other_data: bool,
}

impl View for BlobBodyMsg {
    type V = BlobBodyModel;

    open spec fn view(&self) -> BlobBodyModel {
        BlobBodyModel {
            raw: match self.raw {
                Some(ref v) => Some(v@),
                None => None,
            },
            raw_size: self.raw_size,
            zlib_data: match self.zlib_data {
                Some(ref v) => Some(v@),
                None => None,
            },
            other_data: self.other_data,
        }
    }
}

pub open spec fn blob_body_init() -> BlobBodyModel {
    BlobBodyModel { raw: None, raw_size: None, zlib_data: None, other_data: false }
}

pub open spec fn blob_body_parse_rec(
    s: Seq<u8>,
    pos: int,
    end: int,
    acc: BlobBodyModel,
) -> Option<BlobBodyModel>
    decreases end - pos,
    when 0 <= pos <= end <= s.len()
    via blob_body_parse_decreases
{
    if pos == end {
        Some(acc)
    } else {
        match field_parse(s, pos) {
            None => None,
            Some(f) => if f.next > end {
                None
            } else {
                let acc2 = if f.num == 1 && f.wire == WIRE_LEN {
                    BlobBodyModel { raw: Some(s.subrange(f.start, f.end)), ..acc }
                } else if f.num == 2 && f.wire == WIRE_VARINT {
                    BlobBodyModel { raw_size: Some(trunc_i32(f.raw)), ..acc }
                } else if f.num == 3 && f.wire == WIRE_LEN {
                    BlobBodyModel { zlib_data: Some(s.subrange(f.start, f.end)), ..acc }
                } else if 4 <= f.num <= 7 && f.wire == WIRE_LEN {
                    BlobBodyModel { other_data: true, ..acc }
                } else {
                    acc
                };
                blob_body_parse_rec(s, f.next, end, acc2)
            },
        }
    }
}

#[via_fn]
proof fn blob_body_parse_decreases(s: Seq<u8>, pos: int, end: int, acc: BlobBodyModel) {
    lemma_field_parse_bounds(s, pos);
}

/// Reads a whole `Blob` message from `s[pos..end]`.
pub open spec fn blob_body_parse(s: Seq<u8>, pos: int, end: int) -> Option<BlobBodyModel> {
    blob_body_parse_rec(s, pos, end, blob_body_init())
}

/// Decodes a `Blob` message from the given message area.
pub fn parse_blob_body(s: &[u8], start: usize, end: usize) -> (r: Option<BlobBodyMsg>)
    requires
        start <= end <= s@.len(),
    ensures
        match blob_body_parse(s@, start as int, end as int) {
            Some(m) => r matches Some(h) && h@ == m,
            None => r is None,
        },
{
    let mut msg = BlobBodyMsg { raw: None, raw_size: None, zlib_data: None, other_data: false };
    let mut pos: usize = start;
    loop
        invariant
            start <= pos <= end <= s@.len(),
            blob_body_parse(s@, start as int, end as int) == blob_body_parse_rec(
                s@,
                pos as int,
                end as int,
                msg@,
            ),
        decreases end - pos,
    {
        if pos == end {
            return Some(msg);
        }
        proof {
            lemma_field_parse_bounds(s@, pos as int);
        }
        match read_field(s, pos) {
            None => {
                return None;
            },
            Some((num, fref, next)) => {
                if next > end {
                    return None;
                }
                match fref {
                    FieldRef::Bytes(a, b) => {
                        if num == 1 {
                            msg.raw = Some(
                                vstd::slice::slice_to_vec(vstd::slice::slice_subrange(s, a, b)),
                            );
                        } else if num == 3 {
                            msg.zlib_data = Some(
                                vstd::slice::slice_to_vec(vstd::slice::slice_subrange(s, a, b)),
                            );
                        } else if 4 <= num && num <= 7 {
                            msg.other_data = true;
                        }
                    },
                    FieldRef::Varint(v) => {
                        if num == 2 {
                            msg.raw_size = Some(trunc_i32_exec(v));
                        }
                    },
                    FieldRef::Skip => {},
                }
                pos = next;
            },
        }
    }
}

/// The encoding this library writes for a `Blob`: the raw size, then the
/// zlib-compressed payload.
pub open spec fn blob_body_enc(raw_size: i32, zlib: Seq<u8>) -> Seq<u8> {
    key_enc(2, WIRE_VARINT) + varint_enc(i32_as_varint_val(raw_size) as nat) + key_enc(
        3,
        WIRE_LEN,
    ) + len_delim_enc(zlib)
}

/// Appends the encoding of a `Blob` carrying a compressed payload.
pub fn encode_blob_body(out: &mut Vec<u8>, raw_size: i32, zlib: &[u8])
    ensures
        final(out)@ == old(out)@ + blob_body_enc(raw_size, zlib@),
{
    write_varint_field(out, 2, i32_to_varint_val(raw_size));
    write_bytes_field(out, 3, zlib);
    assert(final(out)@ =~= old(out)@ + blob_body_enc(raw_size, zlib@));
}

/// Parsing an encoded `Blob` recovers the compressed payload and size.
pub proof fn lemma_blob_body_roundtrip(s: Seq<u8>, pos: int, rs: i32, z: Seq<u8>)
    requires
        0 <= pos,
        z.len() <= u64::MAX,
        pos + blob_body_enc(rs, z).len() <= s.len(),
        s.subrange(pos, pos + blob_body_enc(rs, z).len()) == blob_body_enc(rs, z),
    ensures
        blob_body_parse(s, pos, pos + blob_body_enc(rs, z).len()) == Some(
            BlobBodyModel {
                raw: None,
                raw_size: Some(rs),
                zlib_data: Some(z),
                other_data: false,
            },
        ),
{
    let f1 = key_enc(2, WIRE_VARINT) + varint_enc(i32_as_varint_val(rs) as nat);
    let f2 = key_enc(3, WIRE_LEN) + len_delim_enc(z);
    let end = pos + blob_body_enc(rs, z).len();
    assert(blob_body_enc(rs, z) =~= f1 + f2);
    lemma_subrange_concat(s, pos, f1, f2);
    lemma_field_parse_varint(s, pos, 2, i32_as_varint_val(rs));
    lemma_i32_varint_roundtrip(rs);
    let p1 = pos + f1.len();
    lemma_field_parse_bytes(s, p1, 3, z);
    let acc1 = BlobBodyModel { raw_size: Some(rs), ..blob_body_init() };
    let acc2 = BlobBodyModel { zlib_data: Some(z), ..acc1 };
    assert(blob_body_parse_rec(s, pos, end, blob_body_init()) == blob_body_parse_rec(
        s,
        p1,
        end,
        acc1,
    ));
    assert(blob_body_parse_rec(s, p1, end, acc1) == blob_body_parse_rec(s, end, end, acc2));
    assert(blob_body_parse_rec(s, end, end, acc2) == Some(acc2));
}

} // verus!
