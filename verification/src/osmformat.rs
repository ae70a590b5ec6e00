//! The OSM block messages: the string table, entity metadata, sparse and
//! dense nodes, ways, relations, and the primitive block that gathers
//! them. Decoding is specified by recursive parse functions over the
//! bytes; encoding is specified by concatenation functions; the
//! executable codecs are proved to match them exactly.

use vstd::prelude::*;
use crate::wire::{
    field_parse, i32_as_varint_val, i32_to_varint_val, i64_from_u64, i64_of_u64, i64_to_u64,
    int32_raws, int32_values, key_enc, lemma_bool_values_roundtrip, lemma_field_parse_bounds,
    lemma_field_parse_bytes, lemma_field_parse_varint, lemma_i32_varint_roundtrip,
    lemma_i64_varint_roundtrip, lemma_int32_values_roundtrip, lemma_packed_enc_parse,
    lemma_sint32_values_roundtrip, lemma_sint64_values_roundtrip, lemma_subrange_concat,
    lemma_uint32_values_roundtrip, len_delim_enc, map_bool, map_int32, map_sint32, map_sint64,
    map_uint32, packed_enc, packed_parse, bool_raws, bool_values, raws_of_bool, raws_of_int32,
    raws_of_sint32, raws_of_sint64, raws_of_uint32, read_field, read_packed, sint32_raws,
    sint32_values, sint64_raws, sint64_values, trunc_i32, trunc_i32_exec, trunc_u32,
    trunc_u32_exec, uint32_raws, uint32_values, u64_of_i64, varint_enc, write_bytes_field,
    write_packed, write_varint_field, FieldRef, WIRE_LEN, WIRE_VARINT,
};

verus! {

/// The per-entity metadata record. Absent fields keep these defaults:
/// zero for the numbers, visible for the flag.
#[derive(Debug, Clone, Copy, PartialEq, Eq, Structural)]
pub struct Info {
    pub version: i32,
    pub timestamp: i64,
    pub changeset: i64,
    pub uid: i32,
    pub user_sid: u32,
    pub visible: bool,
}

pub open spec fn info_init() -> Info {
    Info { version: 0, timestamp: 0, changeset: 0, uid: 0, user_sid: 0, visible: true }
}

pub open spec fn info_field(f: crate::wire::WireField, acc: Info) -> Info {
    if f.wire == WIRE_VARINT {
        if f.num == 1 {
            Info { version: trunc_i32(f.raw), ..acc }
        } else if f.num == 2 {
            Info { timestamp: i64_of_u64(f.raw), ..acc }
        } else if f.num == 3 {
            Info { changeset: i64_of_u64(f.raw), ..acc }
        } else if f.num == 4 {
            Info { uid: trunc_i32(f.raw), ..acc }
        } else if f.num == 5 {
            Info { user_sid: trunc_u32(f.raw), ..acc }
        } else if f.num == 6 {
            Info { visible: f.raw != 0, ..acc }
        } else {
            acc
        }
    } else {
        acc
    }
}

pub open spec fn info_parse_rec(s: Seq<u8>, pos: int, end: int, acc: Info) -> Option<Info>
    decreases end - pos,
    when 0 <= pos <= end <= s.len()
    via info_parse_decreases
{
    if pos == end {
        Some(acc)
    } else {
        match field_parse(s, pos) {
            None => None,
            Some(f) => if f.next > end {
                None
            } else {
                info_parse_rec(s, f.next, end, info_field(f, acc))
            },
        }
    }
}

#[via_fn]
proof fn info_parse_decreases(s: Seq<u8>, pos: int, end: int, acc: Info) {
    lemma_field_parse_bounds(s, pos);
}

/// Reads a whole `Info` message from `s[pos..end]`.
pub open spec fn info_parse(s: Seq<u8>, pos: int, end: int) -> Option<Info> {
    info_parse_rec(s, pos, end, info_init())
}

/// Decodes an `Info` message from the given message area.
pub fn parse_info(s: &[u8], start: usize, end: usize) -> (r: Option<Info>)
    requires
        start <= end <= s@.len(),
    ensures
        r == info_parse(s@, start as int, end as int),
{
    let mut msg = Info { version: 0, timestamp: 0, changeset: 0, uid: 0, user_sid: 0, visible:
        true };
    let mut pos: usize = start;
    loop
        invariant
            start <= pos <= end <= s@.len(),
            info_parse(s@, start as int, end as int) == info_parse_rec(
                s@,
                pos as int,
                end as int,
                msg,
            ),
        decreases end - pos,
    {
        if pos == end {
            return Some(msg);
        }
        proof {
            lemma_field_parse_bounds(s@, pos as int);
        }
        match read_field(s, pos) {
            None => {
                return None;
            },
            Some((num, fref, next)) => {
                if next > end {
                    return None;
                }
                match fref {
                    FieldRef::Varint(v) => {
                        if num == 1 {
                            msg.version = trunc_i32_exec(v);
                        } else if num == 2 {
                            msg.timestamp = i64_from_u64(v);
                        } else if num == 3 {
                            msg.changeset = i64_from_u64(v);
                        } else if num == 4 {
                            msg.uid = trunc_i32_exec(v);
                        } else if num == 5 {
                            msg.user_sid = trunc_u32_exec(v);
                        } else if num == 6 {
                            msg.visible = v != 0;
                        }
                    },
                    _ => {},
                }
                pos = next;
            },
        }
    }
}

/// The encoding this library writes for an `Info`: every field, in order.
pub open spec fn info_enc(i: Info) -> Seq<u8> {
    key_enc(1, WIRE_VARINT) + varint_enc(i32_as_varint_val(i.version) as nat) + key_enc(
        2,
        WIRE_VARINT,
    ) + varint_enc(u64_of_i64(i.timestamp) as nat) + key_enc(3, WIRE_VARINT) + varint_enc(
        u64_of_i64(i.changeset) as nat,
    ) + key_enc(4, WIRE_VARINT) + varint_enc(i32_as_varint_val(i.uid) as nat) + key_enc(
        5,
        WIRE_VARINT,
    ) + varint_enc(i.user_sid as nat) + key_enc(6, WIRE_VARINT) + varint_enc(
        if i.visible {
            1
        } else {
            0
        },
    )
}

/// Appends the encoding of an `Info`.
pub fn encode_info(out: &mut Vec<u8>, i: &Info)
    ensures
        final(out)@ == old(out)@ + info_enc(*i),
{
    write_varint_field(out, 1, i32_to_varint_val(i.version));
    write_varint_field(out, 2, i64_to_u64(i.timestamp));
    write_varint_field(out, 3, i64_to_u64(i.changeset));
    write_varint_field(out, 4, i32_to_varint_val(i.uid));
    write_varint_field(out, 5, i.user_sid as u64);
    write_varint_field(
        out,
        6,
        if i.visible {
            1
        } else {
            0
        },
    );
    assert(final(out)@ =~= old(out)@ + info_enc(*i));
}

/// The deep view of a list of byte strings.
pub open spec fn deep_bytes(v: Seq<Vec<u8>>) -> Seq<Seq<u8>> {
    v.map_values(|x: Vec<u8>| x@)
}

pub open spec fn string_table_parse_rec(
    s: Seq<u8>,
    pos: int,
    end: int,
    acc: Seq<Seq<u8>>,
) -> Option<Seq<Seq<u8>>>
    decreases end - pos,
    when 0 <= pos <= end <= s.len()
    via string_table_parse_decreases
{
    if pos == end {
        Some(acc)
    } else {
        match field_parse(s, pos) {
            None => None,
            Some(f) => if f.next > end {
                None
            } else {
                let acc2 = if f.num == 1 && f.wire == WIRE_LEN {
                    acc.push(s.subrange(f.start, f.end))
                } else {
                    acc
                };
                string_table_parse_rec(s, f.next, end, acc2)
            },
        }
    }
}

#[via_fn]
proof fn string_table_parse_decreases(s: Seq<u8>, pos: int, end: int, acc: Seq<Seq<u8>>) {
    lemma_field_parse_bounds(s, pos);
}

/// Reads a whole `StringTable` message: its byte strings, in order.
pub open spec fn string_table_parse(s: Seq<u8>, pos: int, end: int) -> Option<Seq<Seq<u8>>> {
    string_table_parse_rec(s, pos, end, Seq::empty())
}

/// Decodes a `StringTable` message from the given message area.
pub fn parse_string_table_msg(s: &[u8], start: usize, end: usize) -> (r: Option<Vec<Vec<u8>>>)
    requires
        start <= end <= s@.len(),
    ensures
        match string_table_parse(s@, start as int, end as int) {
            Some(m) => r matches Some(t) && deep_bytes(t@) == m,
            None => r is None,
        },
{
    let mut table: Vec<Vec<u8>> = Vec::new();
    let mut pos: usize = start;
    proof {
        assert(deep_bytes(table@) =~= Seq::<Seq<u8>>::empty());
    }
    loop
        invariant
            start <= pos <= end <= s@.len(),
            string_table_parse(s@, start as int, end as int) == string_table_parse_rec(
                s@,
                pos as int,
                end as int,
                deep_bytes(table@),
            ),
        decreases end - pos,
    {
        if pos == end {
            return Some(table);
        }
        proof {
            lemma_field_parse_bounds(s@, pos as int);
        }
        match read_field(s, pos) {
            None => {
                return None;
            },
            Some((num, fref, next)) => {
                if next > end {
                    return None;
                }
                match fref {
                    FieldRef::Bytes(a, b) => {
                        if num == 1 {
                            let entry = vstd::slice::slice_to_vec(
                                vstd::slice::slice_subrange(s, a, b),
                            );
                            proof {
                                assert(deep_bytes(table@.push(entry)) =~= deep_bytes(
                                    table@,
                                ).push(entry@));
                            }
                            table.push(entry);
                        }
                    },
                    _ => {},
                }
                pos = next;
            },
        }
    }
}

/// The encoding this library writes for a `StringTable`.
pub open spec fn string_table_enc(entries: Seq<Seq<u8>>) -> Seq<u8>
    decreases entries.len(),
{
    if entries.len() == 0 {
        Seq::empty()
    } else {
        key_enc(1, WIRE_LEN) + len_delim_enc(entries[0]) + string_table_enc(
            entries.drop_first(),
        )
    }
}

pub proof fn lemma_string_table_enc_push(entries: Seq<Seq<u8>>, e: Seq<u8>)
    ensures
        string_table_enc(entries.push(e)) == string_table_enc(entries) + key_enc(1, WIRE_LEN)
            + len_delim_enc(e),
    decreases entries.len(),
{
    if entries.len() == 0 {
        assert(entries.push(e).drop_first() =~= Seq::<Seq<u8>>::empty());
        assert(entries.push(e)[0] == e);
        assert(string_table_enc(entries.push(e)) == key_enc(1, WIRE_LEN) + len_delim_enc(e)
            + string_table_enc(entries.push(e).drop_first()));
        assert(string_table_enc(entries.push(e)) =~= string_table_enc(entries) + key_enc(
            1,
            WIRE_LEN,
        ) + len_delim_enc(e));
    } else {
        let w = entries.push(e);
        assert(w[0] == entries[0]);
        assert(w.drop_first() =~= entries.drop_first().push(e));
        lemma_string_table_enc_push(entries.drop_first(), e);
        assert(string_table_enc(w) == key_enc(1, WIRE_LEN) + len_delim_enc(w[0])
            + string_table_enc(w.drop_first()));
        assert(string_table_enc(entries) == key_enc(1, WIRE_LEN) + len_delim_enc(entries[0])
            + string_table_enc(entries.drop_first()));
        assert(string_table_enc(entries.push(e)) =~= string_table_enc(entries) + key_enc(
            1,
            WIRE_LEN,
        ) + len_delim_enc(e));
    }
}

/// Appends the encoding of a `StringTable`.
pub fn encode_string_table(out: &mut Vec<u8>, entries: &Vec<Vec<u8>>)
    ensures
        final(out)@ == old(out)@ + string_table_enc(deep_bytes(entries@)),
{
    let mut i: usize = 0;
    proof {
        assert(deep_bytes(entries@).take(0) =~= Seq::<Seq<u8>>::empty());
    }
    while i < entries.len()
        invariant
            i <= entries@.len(),
            out@ == old(out)@ + string_table_enc(deep_bytes(entries@).take(i as int)),
        decreases entries@.len() - i,
    {
        proof {
            lemma_string_table_enc_push(
                deep_bytes(entries@).take(i as int),
                deep_bytes(entries@)[i as int],
            );
            assert(deep_bytes(entries@).take(i as int).push(deep_bytes(entries@)[i as int])
                =~= deep_bytes(entries@).take(i as int + 1));
        }
        write_bytes_field(out, 1, entries[i].as_slice());
        i += 1;
    }
    assert(deep_bytes(entries@).take(entries@.len() as int) =~= deep_bytes(entries@));
}

/// A way: its id, parallel tag index arrays, delta-coded node
/// references, and optional metadata.
pub struct Way {
    pub id: i64,
    pub keys: Vec<u32>,
    pub vals: Vec<u32>,
    pub refs: Vec<i64>,
    pub info: Option<Info>,
}

#[verifier::ext_equal]
pub struct WayModel {
    pub id: i64,
    pub keys: Seq<u32>,
    pub vals: Seq<u32>,
    pub refs: Seq<i64>,
    pub info: Option<Info>,
}

impl View for Way {
    type V = WayModel;

    open spec fn view(&self) -> WayModel {
        WayModel {
            id: self.id,
            keys: self.keys@,
            vals: self.vals@,
            refs: self.refs@,
            info: self.info,
        }
    }
}

pub open spec fn way_init() -> WayModel {
    WayModel { id: 0, keys: Seq::empty(), vals: Seq::empty(), refs: Seq::empty(), info: None }
}

pub open spec fn way_field(s: Seq<u8>, f: crate::wire::WireField, acc: WayModel) -> Option<
    WayModel,
> {
    if f.num == 1 && f.wire == WIRE_VARINT {
        Some(WayModel { id: i64_of_u64(f.raw), ..acc })
    } else if f.num == 2 && f.wire == WIRE_LEN {
        match packed_parse(s, f.start, f.end) {
            None => None,
            Some(raws) => Some(WayModel { keys: acc.keys + map_uint32(raws), ..acc }),
        }
    } else if f.num == 3 && f.wire == WIRE_LEN {
        match packed_parse(s, f.start, f.end) {
            None => None,
            Some(raws) => Some(WayModel { vals: acc.vals + map_uint32(raws), ..acc }),
        }
    } else if f.num == 4 && f.wire == WIRE_LEN {
        match info_parse(s, f.start, f.end) {
            None => None,
            Some(i) => Some(WayModel { info: Some(i), ..acc }),
        }
    } else if f.num == 8 && f.wire == WIRE_LEN {
        match packed_parse(s, f.start, f.end) {
            None => None,
            Some(raws) => Some(WayModel { refs: acc.refs + map_sint64(raws), ..acc }),
        }
    } else if f.num == 2 && f.wire == WIRE_VARINT {
        Some(WayModel { keys: acc.keys.push(trunc_u32(f.raw)), ..acc })
    } else if f.num == 3 && f.wire == WIRE_VARINT {
        Some(WayModel { vals: acc.vals.push(trunc_u32(f.raw)), ..acc })
    } else if f.num == 8 && f.wire == WIRE_VARINT {
        Some(WayModel { refs: acc.refs.push(crate::wire::zigzag_dec(f.raw)), ..acc })
    } else {
        Some(acc)
    }
}

pub open spec fn way_parse_rec(s: Seq<u8>, pos: int, end: int, acc: WayModel) -> Option<WayModel>
    decreases end - pos,
    when 0 <= pos <= end <= s.len()
    via way_parse_decreases
{
    if pos == end {
        Some(acc)
    } else {
        match field_parse(s, pos) {
            None => None,
            Some(f) => if f.next > end {
                None
            } else {
                match way_field(s, f, acc) {
                    None => None,
                    Some(acc2) => way_parse_rec(s, f.next, end, acc2),
                }
            },
        }
    }
}

#[via_fn]
proof fn way_parse_decreases(s: Seq<u8>, pos: int, end: int, acc: WayModel) {
    lemma_field_parse_bounds(s, pos);
}

/// Reads a whole `Way` message from `s[pos..end]`.
pub open spec fn way_parse(s: Seq<u8>, pos: int, end: int) -> Option<WayModel> {
    way_parse_rec(s, pos, end, way_init())
}

/// Decodes a `Way` message from the given message area.
pub fn parse_way(s: &[u8], start: usize, end: usize) -> (r: Option<Way>)
    requires
        start <= end <= s@.len(),
    ensures
        match way_parse(s@, start as int, end as int) {
            Some(m) => r matches Some(w) && w@ == m,
            None => r is None,
        },
{
    let mut msg = Way { id: 0, keys: Vec::new(), vals: Vec::new(), refs: Vec::new(), info: None };
    let mut pos: usize = start;
    loop
        invariant
            start <= pos <= end <= s@.len(),
            way_parse(s@, start as int, end as int) == way_parse_rec(
                s@,
                pos as int,
                end as int,
                msg@,
            ),
        decreases end - pos,
    {
        if pos == end {
            return Some(msg);
        }
        proof {
            lemma_field_parse_bounds(s@, pos as int);
        }
        match read_field(s, pos) {
            None => {
                return None;
            },
            Some((num, fref, next)) => {
                if next > end {
                    return None;
                }
                match fref {
                    FieldRef::Varint(v) => {
                        if num == 1 {
                            msg.id = i64_from_u64(v);
                        } else if num == 2 {
                            msg.keys.push(trunc_u32_exec(v));
                        } else if num == 3 {
                            msg.vals.push(trunc_u32_exec(v));
                        } else if num == 8 {
                            msg.refs.push(crate::wire::zigzag_decode(v));
                        }
                    },
                    FieldRef::Bytes(a, b) => {
                        if num == 2 {
                            match read_packed(s, a, b) {
                                None => {
                                    return None;
                                },
                                Some(raws) => {
                                    let mut conv = uint32_values(&raws);
                                    msg.keys.append(&mut conv);
                                },
                            }
                        } else if num == 3 {
                            match read_packed(s, a, b) {
                                None => {
                                    return None;
                                },
                                Some(raws) => {
                                    let mut conv = uint32_values(&raws);
                                    msg.vals.append(&mut conv);
                                },
                            }
                        } else if num == 4 {
                            match parse_info(s, a, b) {
                                None => {
                                    return None;
                                },
                                Some(i) => {
                                    msg.info = Some(i);
                                },
                            }
                        } else if num == 8 {
                            match read_packed(s, a, b) {
                                None => {
                                    return None;
                                },
                                Some(raws) => {
                                    let mut conv = sint64_values(&raws);
                                    msg.refs.append(&mut conv);
                                },
                            }
                        }
                    },
                    FieldRef::Skip => {},
                }
                pos = next;
            },
        }
    }
}

/// The encoding this library writes for a `Way`.
pub open spec fn way_enc(w: WayModel) -> Seq<u8> {
    key_enc(1, WIRE_VARINT) + varint_enc(u64_of_i64(w.id) as nat) + key_enc(2, WIRE_LEN)
        + len_delim_enc(packed_enc(raws_of_uint32(w.keys))) + key_enc(3, WIRE_LEN)
        + len_delim_enc(packed_enc(raws_of_uint32(w.vals))) + (match w.info {
        Some(i) => key_enc(4, WIRE_LEN) + len_delim_enc(info_enc(i)),
        None => Seq::empty(),
    }) + key_enc(8, WIRE_LEN) + len_delim_enc(packed_enc(raws_of_sint64(w.refs)))
}

/// Appends the encoding of a `Way`.
#[verifier::rlimit(100)]
pub fn encode_way(out: &mut Vec<u8>, w: &Way)
    ensures
        final(out)@ == old(out)@ + way_enc(w@),
{
    write_varint_field(out, 1, i64_to_u64(w.id));
    let key_raws = uint32_raws(&w.keys);
    let mut keys_payload: Vec<u8> = Vec::new();
    write_packed(&mut keys_payload, &key_raws);
    write_bytes_field(out, 2, keys_payload.as_slice());
    let val_raws = uint32_raws(&w.vals);
    let mut vals_payload: Vec<u8> = Vec::new();
    write_packed(&mut vals_payload, &val_raws);
    write_bytes_field(out, 3, vals_payload.as_slice());
    match w.info {
        Some(i) => {
            let mut info_payload: Vec<u8> = Vec::new();
            encode_info(&mut info_payload, &i);
            write_bytes_field(out, 4, info_payload.as_slice());
        },
        None => {},
    }
    let ref_raws = sint64_raws(&w.refs);
    let mut refs_payload: Vec<u8> = Vec::new();
    write_packed(&mut refs_payload, &ref_raws);
    write_bytes_field(out, 8, refs_payload.as_slice());
    assert(final(out)@ =~= old(out)@ + way_enc(w@));
}

/// A sparse node: its id, tag index arrays, raw coordinates, and
/// optional metadata.
pub struct Node {
    pub id: i64,
    pub keys: Vec<u32>,
    pub vals: Vec<u32>,
    pub lat: i64,
    pub lon: i64,
    pub info: Option<Info>,
}

#[verifier::ext_equal]
pub struct NodeModel {
    pub id: i64,
    pub keys: Seq<u32>,
    pub vals: Seq<u32>,
    pub lat: i64,
    pub lon: i64,
    pub info: Option<Info>,
}

impl View for Node {
    type V = NodeModel;

    open spec fn view(&self) -> NodeModel {
        NodeModel {
            id: self.id,
            keys: self.keys@,
            vals: self.vals@,
            lat: self.lat,
            lon: self.lon,
            info: self.info,
        }
    }
}

pub open spec fn node_init() -> NodeModel {
    NodeModel { id: 0, keys: Seq::empty(), vals: Seq::empty(), lat: 0, lon: 0, info: None }
}

pub open spec fn node_field(s: Seq<u8>, f: crate::wire::WireField, acc: NodeModel) -> Option<
    NodeModel,
> {
    if f.num == 1 && f.wire == WIRE_VARINT {
        Some(NodeModel { id: crate::wire::zigzag_dec(f.raw), ..acc })
    } else if f.num == 2 && f.wire == WIRE_LEN {
        match packed_parse(s, f.start, f.end) {
            None => None,
            Some(raws) => Some(NodeModel { keys: acc.keys + map_uint32(raws), ..acc }),
        }
    } else if f.num == 3 && f.wire == WIRE_LEN {
        match packed_parse(s, f.start, f.end) {
            None => None,
            Some(raws) => Some(NodeModel { vals: acc.vals + map_uint32(raws), ..acc }),
        }
    } else if f.num == 4 && f.wire == WIRE_LEN {
        match info_parse(s, f.start, f.end) {
            None => None,
            Some(i) => Some(NodeModel { info: Some(i), ..acc }),
        }
    } else if f.num == 8 && f.wire == WIRE_VARINT {
        Some(NodeModel { lat: crate::wire::zigzag_dec(f.raw), ..acc })
    } else if f.num == 9 && f.wire == WIRE_VARINT {
        Some(NodeModel { lon: crate::wire::zigzag_dec(f.raw), ..acc })
    } else if f.num == 2 && f.wire == WIRE_VARINT {
        Some(NodeModel { keys: acc.keys.push(trunc_u32(f.raw)), ..acc })
    } else if f.num == 3 && f.wire == WIRE_VARINT {
        Some(NodeModel { vals: acc.vals.push(trunc_u32(f.raw)), ..acc })
    } else {
        Some(acc)
    }
}

pub open spec fn node_parse_rec(s: Seq<u8>, pos: int, end: int, acc: NodeModel) -> Option<
    NodeModel,
>
    decreases end - pos,
    when 0 <= pos <= end <= s.len()
    via node_parse_decreases
{
    if pos == end {
        Some(acc)
    } else {
        match field_parse(s, pos) {
            None => None,
            Some(f) => if f.next > end {
                None
            } else {
                match node_field(s, f, acc) {
                    None => None,
                    Some(acc2) => node_parse_rec(s, f.next, end, acc2),
                }
            },
        }
    }
}

#[via_fn]
proof fn node_parse_decreases(s: Seq<u8>, pos: int, end: int, acc: NodeModel) {
    lemma_field_parse_bounds(s, pos);
}

/// Reads a whole `Node` message from `s[pos..end]`.
pub open spec fn node_parse(s: Seq<u8>, pos: int, end: int) -> Option<NodeModel> {
    node_parse_rec(s, pos, end, node_init())
}

/// Decodes a `Node` message from the given message area.
pub fn parse_node(s: &[u8], start: usize, end: usize) -> (r: Option<Node>)
    requires
        start <= end <= s@.len(),
    ensures
        match node_parse(s@, start as int, end as int) {
            Some(m) => r matches Some(n) && n@ == m,
            None => r is None,
        },
{
    let mut msg = Node { id: 0, keys: Vec::new(), vals: Vec::new(), lat: 0, lon: 0, info: None };
    let mut pos: usize = start;
    loop
        invariant
            start <= pos <= end <= s@.len(),
            node_parse(s@, start as int, end as int) == node_parse_rec(
                s@,
                pos as int,
                end as int,
                msg@,
            ),
        decreases end - pos,
    {
        if pos == end {
            return Some(msg);
        }
        proof {
            lemma_field_parse_bounds(s@, pos as int);
        }
        match read_field(s, pos) {
            None => {
                return None;
            },
            Some((num, fref, next)) => {
                if next > end {
                    return None;
                }
                match fref {
                    FieldRef::Varint(v) => {
                        if num == 1 {
                            msg.id = crate::wire::zigzag_decode(v);
                        } else if num == 8 {
                            msg.lat = crate::wire::zigzag_decode(v);
                        } else if num == 9 {
                            msg.lon = crate::wire::zigzag_decode(v);
                        } else if num == 2 {
                            msg.keys.push(trunc_u32_exec(v));
                        } else if num == 3 {
                            msg.vals.push(trunc_u32_exec(v));
                        }
                    },
                    FieldRef::Bytes(a, b) => {
                        if num == 2 {
                            match read_packed(s, a, b) {
                                None => {
                                    return None;
                                },
                                Some(raws) => {
                                    let mut conv = uint32_values(&raws);
                                    msg.keys.append(&mut conv);
                                },
                            }
                        } else if num == 3 {
                            match read_packed(s, a, b) {
                                None => {
                                    return None;
                                },
                                Some(raws) => {
                                    let mut conv = uint32_values(&raws);
                                    msg.vals.append(&mut conv);
                                },
                            }
                        } else if num == 4 {
                            match parse_info(s, a, b) {
                                None => {
                                    return None;
                                },
                                Some(i) => {
                                    msg.info = Some(i);
                                },
                            }
                        }
                    },
                    FieldRef::Skip => {},
                }
                pos = next;
            },
        }
    }
}

/// The encoding this library writes for a `Node`.
pub open spec fn node_enc(n: NodeModel) -> Seq<u8> {
    key_enc(1, WIRE_VARINT) + varint_enc(crate::wire::zigzag_enc(n.id) as nat) + key_enc(
        2,
        WIRE_LEN,
    ) + len_delim_enc(packed_enc(raws_of_uint32(n.keys))) + key_enc(3, WIRE_LEN)
        + len_delim_enc(packed_enc(raws_of_uint32(n.vals))) + (match n.info {
        Some(i) => key_enc(4, WIRE_LEN) + len_delim_enc(info_enc(i)),
        None => Seq::empty(),
    }) + key_enc(8, WIRE_VARINT) + varint_enc(crate::wire::zigzag_enc(n.lat) as nat) + key_enc(
        9,
        WIRE_VARINT,
    ) + varint_enc(crate::wire::zigzag_enc(n.lon) as nat)
}

/// Appends the encoding of a `Node`.
#[verifier::rlimit(100)]
pub fn encode_node(out: &mut Vec<u8>, n: &Node)
    ensures
        final(out)@ == old(out)@ + node_enc(n@),
{
    write_varint_field(out, 1, crate::wire::zigzag_encode(n.id));
    let key_raws = uint32_raws(&n.keys);
    let mut keys_payload: Vec<u8> = Vec::new();
    write_packed(&mut keys_payload, &key_raws);
    write_bytes_field(out, 2, keys_payload.as_slice());
    let val_raws = uint32_raws(&n.vals);
    let mut vals_payload: Vec<u8> = Vec::new();
    write_packed(&mut vals_payload, &val_raws);
    write_bytes_field(out, 3, vals_payload.as_slice());
    match n.info {
        Some(i) => {
            let mut info_payload: Vec<u8> = Vec::new();
            encode_info(&mut info_payload, &i);
            write_bytes_field(out, 4, info_payload.as_slice());
        },
        None => {},
    }
    write_varint_field(out, 8, crate::wire::zigzag_encode(n.lat));
    write_varint_field(out, 9, crate::wire::zigzag_encode(n.lon));
    assert(final(out)@ =~= old(out)@ + node_enc(n@));
}

/// A relation: its id, tag index arrays, and parallel member arrays.
pub struct Relation {
    pub id: i64,
    pub keys: Vec<u32>,
    pub vals: Vec<u32>,
    pub roles_sid: Vec<i32>,
    pub memids: Vec<i64>,
    pub types: Vec<i32>,
    pub info: Option<Info>,
}

#[verifier::ext_equal]
pub struct RelationModel {
    pub id: i64,
    pub keys: Seq<u32>,
    pub vals: Seq<u32>,
    pub roles_sid: Seq<i32>,
    pub memids: Seq<i64>,
    pub types: Seq<i32>,
    pub info: Option<Info>,
}

impl View for Relation {
    type V = RelationModel;

    open spec fn view(&self) -> RelationModel {
        RelationModel {
            id: self.id,
            keys: self.keys@,
            vals: self.vals@,
            roles_sid: self.roles_sid@,
            memids: self.memids@,
            types: self.types@,
            info: self.info,
        }
    }
}

pub open spec fn relation_init() -> RelationModel {
    RelationModel {
        id: 0,
        keys: Seq::empty(),
        vals: Seq::empty(),
        roles_sid: Seq::empty(),
        memids: Seq::empty(),
        types: Seq::empty(),
        info: None,
    }
}

pub open spec fn relation_field(
    s: Seq<u8>,
    f: crate::wire::WireField,
    acc: RelationModel,
) -> Option<RelationModel> {
    if f.num == 1 && f.wire == WIRE_VARINT {
        Some(RelationModel { id: i64_of_u64(f.raw), ..acc })
    } else if f.num == 2 && f.wire == WIRE_LEN {
        match packed_parse(s, f.start, f.end) {
            None => None,
            Some(raws) => Some(RelationModel { keys: acc.keys + map_uint32(raws), ..acc }),
        }
    } else if f.num == 3 && f.wire == WIRE_LEN {
        match packed_parse(s, f.start, f.end) {
            None => None,
            Some(raws) => Some(RelationModel { vals: acc.vals + map_uint32(raws), ..acc }),
        }
    } else if f.num == 4 && f.wire == WIRE_LEN {
        match info_parse(s, f.start, f.end) {
            None => None,
            Some(i) => Some(RelationModel { info: Some(i), ..acc }),
        }
    } else if f.num == 8 && f.wire == WIRE_LEN {
        match packed_parse(s, f.start, f.end) {
            None => None,
            Some(raws) => Some(
                RelationModel { roles_sid: acc.roles_sid + map_int32(raws), ..acc },
            ),
        }
    } else if f.num == 9 && f.wire == WIRE_LEN {
        match packed_parse(s, f.start, f.end) {
            None => None,
            Some(raws) => Some(RelationModel { memids: acc.memids + map_sint64(raws), ..acc }),
        }
    } else if f.num == 10 && f.wire == WIRE_LEN {
        match packed_parse(s, f.start, f.end) {
            None => None,
            Some(raws) => Some(RelationModel { types: acc.types + map_int32(raws), ..acc }),
        }
    } else if f.num == 2 && f.wire == WIRE_VARINT {
        Some(RelationModel { keys: acc.keys.push(trunc_u32(f.raw)), ..acc })
    } else if f.num == 3 && f.wire == WIRE_VARINT {
        Some(RelationModel { vals: acc.vals.push(trunc_u32(f.raw)), ..acc })
    } else if f.num == 8 && f.wire == WIRE_VARINT {
        Some(RelationModel { roles_sid: acc.roles_sid.push(trunc_i32(f.raw)), ..acc })
    } else if f.num == 9 && f.wire == WIRE_VARINT {
        Some(RelationModel { memids: acc.memids.push(crate::wire::zigzag_dec(f.raw)), ..acc })
    } else if f.num == 10 && f.wire == WIRE_VARINT {
        Some(RelationModel { types: acc.types.push(trunc_i32(f.raw)), ..acc })
    } else {
        Some(acc)
    }
}

pub open spec fn relation_parse_rec(
    s: Seq<u8>,
    pos: int,
    end: int,
    acc: RelationModel,
) -> Option<RelationModel>
    decreases end - pos,
    when 0 <= pos <= end <= s.len()
    via relation_parse_decreases
{
    if pos == end {
        Some(acc)
    } else {
        match field_parse(s, pos) {
            None => None,
            Some(f) => if f.next > end {
                None
            } else {
                match relation_field(s, f, acc) {
                    None => None,
                    Some(acc2) => relation_parse_rec(s, f.next, end, acc2),
                }
            },
        }
    }
}

#[via_fn]
proof fn relation_parse_decreases(s: Seq<u8>, pos: int, end: int, acc: RelationModel) {
    lemma_field_parse_bounds(s, pos);
}

/// Reads a whole `Relation` message from `s[pos..end]`.
pub open spec fn relation_parse(s: Seq<u8>, pos: int, end: int) -> Option<RelationModel> {
    relation_parse_rec(s, pos, end, relation_init())
}

/// Decodes a `Relation` message from the given message area.
pub fn parse_relation(s: &[u8], start: usize, end: usize) -> (r: Option<Relation>)
    requires
        start <= end <= s@.len(),
    ensures
        match relation_parse(s@, start as int, end as int) {
            Some(m) => r matches Some(rel) && rel@ == m,
            None => r is None,
        },
{
    let mut msg = Relation {
        id: 0,
        keys: Vec::new(),
        vals: Vec::new(),
        roles_sid: Vec::new(),
        memids: Vec::new(),
        types: Vec::new(),
        info: None,
    };
    let mut pos: usize = start;
    loop
        invariant
            start <= pos <= end <= s@.len(),
            relation_parse(s@, start as int, end as int) == relation_parse_rec(
                s@,
                pos as int,
                end as int,
                msg@,
            ),
        decreases end - pos,
    {
        if pos == end {
            return Some(msg);
        }
        proof {
            lemma_field_parse_bounds(s@, pos as int);
        }
        match read_field(s, pos) {
            None => {
                return None;
            },
            Some((num, fref, next)) => {
                if next > end {
                    return None;
                }
                match fref {
                    FieldRef::Varint(v) => {
                        if num == 1 {
                            msg.id = i64_from_u64(v);
                        } else if num == 2 {
                            msg.keys.push(trunc_u32_exec(v));
                        } else if num == 3 {
                            msg.vals.push(trunc_u32_exec(v));
                        } else if num == 8 {
                            msg.roles_sid.push(trunc_i32_exec(v));
                        } else if num == 9 {
                            msg.memids.push(crate::wire::zigzag_decode(v));
                        } else if num == 10 {
                            msg.types.push(trunc_i32_exec(v));
                        }
                    },
                    FieldRef::Bytes(a, b) => {
                        if num == 2 {
                            match read_packed(s, a, b) {
                                None => {
                                    return None;
                                },
                                Some(raws) => {
                                    let mut conv = uint32_values(&raws);
                                    msg.keys.append(&mut conv);
                                },
                            }
                        } else if num == 3 {
                            match read_packed(s, a, b) {
                                None => {
                                    return None;
                                },
                                Some(raws) => {
                                    let mut conv = uint32_values(&raws);
                                    msg.vals.append(&mut conv);
                                },
                            }
                        } else if num == 4 {
                            match parse_info(s, a, b) {
                                None => {
                                    return None;
                                },
                                Some(i) => {
                                    msg.info = Some(i);
                                },
                            }
                        } else if num == 8 {
                            match read_packed(s, a, b) {
                                None => {
                                    return None;
                                },
                                Some(raws) => {
                                    let mut conv = int32_values(&raws);
                                    msg.roles_sid.append(&mut conv);
                                },
                            }
                        } else if num == 9 {
                            match read_packed(s, a, b) {
                                None => {
                                    return None;
                                },
                                Some(raws) => {
                                    let mut conv = sint64_values(&raws);
                                    msg.memids.append(&mut conv);
                                },
                            }
                        } else if num == 10 {
                            match read_packed(s, a, b) {
                                None => {
                                    return None;
                                },
                                Some(raws) => {
                                    let mut conv = int32_values(&raws);
                                    msg.types.append(&mut conv);
                                },
                            }
                        }
                    },
                    FieldRef::Skip => {},
                }
                pos = next;
            },
        }
    }
}

/// The encoding this library writes for a `Relation`.
pub open spec fn relation_enc(r: RelationModel) -> Seq<u8> {
    key_enc(1, WIRE_VARINT) + varint_enc(u64_of_i64(r.id) as nat) + key_enc(2, WIRE_LEN)
        + len_delim_enc(packed_enc(raws_of_uint32(r.keys))) + key_enc(3, WIRE_LEN)
        + len_delim_enc(packed_enc(raws_of_uint32(r.vals))) + (match r.info {
        Some(i) => key_enc(4, WIRE_LEN) + len_delim_enc(info_enc(i)),
        None => Seq::empty(),
    }) + key_enc(8, WIRE_LEN) + len_delim_enc(packed_enc(raws_of_int32(r.roles_sid))) + key_enc(
        9,
        WIRE_LEN,
    ) + len_delim_enc(packed_enc(raws_of_sint64(r.memids))) + key_enc(10, WIRE_LEN)
        + len_delim_enc(packed_enc(raws_of_int32(r.types)))
}

/// Appends the encoding of a `Relation`.
#[verifier::rlimit(100)]
pub fn encode_relation(out: &mut Vec<u8>, r: &Relation)
    ensures
        final(out)@ == old(out)@ + relation_enc(r@),
{
    write_varint_field(out, 1, i64_to_u64(r.id));
    let key_raws = uint32_raws(&r.keys);
    let mut keys_payload: Vec<u8> = Vec::new();
    write_packed(&mut keys_payload, &key_raws);
    write_bytes_field(out, 2, keys_payload.as_slice());
    let val_raws = uint32_raws(&r.vals);
    let mut vals_payload: Vec<u8> = Vec::new();
    write_packed(&mut vals_payload, &val_raws);
    write_bytes_field(out, 3, vals_payload.as_slice());
    match r.info {
        Some(i) => {
            let mut info_payload: Vec<u8> = Vec::new();
            encode_info(&mut info_payload, &i);
            write_bytes_field(out, 4, info_payload.as_slice());
        },
        None => {},
    }
    let role_raws = int32_raws(&r.roles_sid);
    let mut roles_payload: Vec<u8> = Vec::new();
    write_packed(&mut roles_payload, &role_raws);
    write_bytes_field(out, 8, roles_payload.as_slice());
    let mem_raws = sint64_raws(&r.memids);
    let mut mem_payload: Vec<u8> = Vec::new();
    write_packed(&mut mem_payload, &mem_raws);
    write_bytes_field(out, 9, mem_payload.as_slice());
    let type_raws = int32_raws(&r.types);
    let mut types_payload: Vec<u8> = Vec::new();
    write_packed(&mut types_payload, &type_raws);
    write_bytes_field(out, 10, types_payload.as_slice());
    assert(final(out)@ =~= old(out)@ + relation_enc(r@));
}

/// The delta-coded metadata arrays of a dense node run.
pub struct DenseInfo {
    pub version: Vec<i32>,
    pub timestamp: Vec<i64>,
    pub changeset: Vec<i64>,
    pub uid: Vec<i32>,
    pub user_sid: Vec<i32>,
    pub visible: Vec<bool>,
}

#[verifier::ext_equal]
pub struct DenseInfoModel {
    pub version: Seq<i32>,
    pub timestamp: Seq<i64>,
    pub changeset: Seq<i64>,
    pub uid: Seq<i32>,
    pub user_sid: Seq<i32>,
    pub visible: Seq<bool>,
}

impl View for DenseInfo {
    type V = DenseInfoModel;

    open spec fn view(&self) -> DenseInfoModel {
        DenseInfoModel {
            version: self.version@,
            timestamp: self.timestamp@,
            changeset: self.changeset@,
            uid: self.uid@,
            user_sid: self.user_sid@,
            visible: self.visible@,
        }
    }
}

pub open spec fn dense_info_init() -> DenseInfoModel {
    DenseInfoModel {
        version: Seq::empty(),
        timestamp: Seq::empty(),
        changeset: Seq::empty(),
        uid: Seq::empty(),
        user_sid: Seq::empty(),
        visible: Seq::empty(),
    }
}

pub open spec fn dense_info_field(
    s: Seq<u8>,
    f: crate::wire::WireField,
    acc: DenseInfoModel,
) -> Option<DenseInfoModel> {
    if f.wire == WIRE_VARINT && f.num == 1 {
        Some(DenseInfoModel { version: acc.version.push(trunc_i32(f.raw)), ..acc })
    } else if f.wire == WIRE_VARINT && f.num == 2 {
        Some(DenseInfoModel { timestamp: acc.timestamp.push(crate::wire::zigzag_dec(f.raw)), ..acc })
    } else if f.wire == WIRE_VARINT && f.num == 3 {
        Some(DenseInfoModel { changeset: acc.changeset.push(crate::wire::zigzag_dec(f.raw)), ..acc })
    } else if f.wire == WIRE_VARINT && f.num == 4 {
        Some(DenseInfoModel { uid: acc.uid.push(crate::wire::zigzag32_dec(f.raw)), ..acc })
    } else if f.wire == WIRE_VARINT && f.num == 5 {
        Some(DenseInfoModel { user_sid: acc.user_sid.push(crate::wire::zigzag32_dec(f.raw)), ..acc })
    } else if f.wire == WIRE_VARINT && f.num == 6 {
        Some(DenseInfoModel { visible: acc.visible.push(f.raw != 0), ..acc })
    } else if f.wire == WIRE_LEN && 1 <= f.num <= 6 {
        match packed_parse(s, f.start, f.end) {
            None => None,
            Some(raws) => if f.num == 1 {
                Some(DenseInfoModel { version: acc.version + map_int32(raws), ..acc })
            } else if f.num == 2 {
                Some(DenseInfoModel { timestamp: acc.timestamp + map_sint64(raws), ..acc })
            } else if f.num == 3 {
                Some(DenseInfoModel { changeset: acc.changeset + map_sint64(raws), ..acc })
            } else if f.num == 4 {
                Some(DenseInfoModel { uid: acc.uid + map_sint32(raws), ..acc })
            } else if f.num == 5 {
                Some(DenseInfoModel { user_sid: acc.user_sid + map_sint32(raws), ..acc })
            } else {
                Some(DenseInfoModel { visible: acc.visible + map_bool(raws), ..acc })
            },
        }
    } else {
        Some(acc)
    }
}

pub open spec fn dense_info_parse_rec(
    s: Seq<u8>,
    pos: int,
    end: int,
    acc: DenseInfoModel,
) -> Option<DenseInfoModel>
    decreases end - pos,
    when 0 <= pos <= end <= s.len()
    via dense_info_parse_decreases
{
    if pos == end {
        Some(acc)
    } else {
        match field_parse(s, pos) {
            None => None,
            Some(f) => if f.next > end {
                None
            } else {
                match dense_info_field(s, f, acc) {
                    None => None,
                    Some(acc2) => dense_info_parse_rec(s, f.next, end, acc2),
                }
            },
        }
    }
}

#[via_fn]
proof fn dense_info_parse_decreases(s: Seq<u8>, pos: int, end: int, acc: DenseInfoModel) {
    lemma_field_parse_bounds(s, pos);
}

/// Reads a whole `DenseInfo` message from `s[pos..end]`.
pub open spec fn dense_info_parse(s: Seq<u8>, pos: int, end: int) -> Option<DenseInfoModel> {
    dense_info_parse_rec(s, pos, end, dense_info_init())
}

/// Decodes a `DenseInfo` message from the given message area.
pub fn parse_dense_info(s: &[u8], start: usize, end: usize) -> (r: Option<DenseInfo>)
    requires
        start <= end <= s@.len(),
    ensures
        match dense_info_parse(s@, start as int, end as int) {
            Some(m) => r matches Some(d) && d@ == m,
            None => r is None,
        },
{
    let mut msg = DenseInfo {
        version: Vec::new(),
        timestamp: Vec::new(),
        changeset: Vec::new(),
        uid: Vec::new(),
        user_sid: Vec::new(),
        visible: Vec::new(),
    };
    let mut pos: usize = start;
    loop
        invariant
            start <= pos <= end <= s@.len(),
            dense_info_parse(s@, start as int, end as int) == dense_info_parse_rec(
                s@,
                pos as int,
                end as int,
                msg@,
            ),
        decreases end - pos,
    {
        if pos == end {
            return Some(msg);
        }
        proof {
            lemma_field_parse_bounds(s@, pos as int);
        }
        match read_field(s, pos) {
            None => {
                return None;
            },
            Some((num, fref, next)) => {
                if next > end {
                    return None;
                }
                match fref {
                    FieldRef::Bytes(a, b) => {
                        if 1 <= num && num <= 6 {
                            match read_packed(s, a, b) {
                                None => {
                                    return None;
                                },
                                Some(raws) => {
                                    if num == 1 {
                                        let mut conv = int32_values(&raws);
                                        msg.version.append(&mut conv);
                                    } else if num == 2 {
                                        let mut conv = sint64_values(&raws);
                                        msg.timestamp.append(&mut conv);
                                    } else if num == 3 {
                                        let mut conv = sint64_values(&raws);
                                        msg.changeset.append(&mut conv);
                                    } else if num == 4 {
                                        let mut conv = sint32_values(&raws);
                                        msg.uid.append(&mut conv);
                                    } else if num == 5 {
                                        let mut conv = sint32_values(&raws);
                                        msg.user_sid.append(&mut conv);
                                    } else {
                                        let mut conv = bool_values(&raws);
                                        msg.visible.append(&mut conv);
                                    }
                                },
                            }
                        }
                    },
                    FieldRef::Varint(v) => {
                        if num == 1 {
                            msg.version.push(trunc_i32_exec(v));
                        } else if num == 2 {
                            msg.timestamp.push(crate::wire::zigzag_decode(v));
                        } else if num == 3 {
                            msg.changeset.push(crate::wire::zigzag_decode(v));
                        } else if num == 4 {
                            msg.uid.push(crate::wire::zigzag32_decode(v));
                        } else if num == 5 {
                            msg.user_sid.push(crate::wire::zigzag32_decode(v));
                        } else if num == 6 {
                            msg.visible.push(v != 0);
                        }
                    },
                    _ => {},
                }
                pos = next;
            },
        }
    }
}

/// The encoding this library writes for a `DenseInfo`.
pub open spec fn dense_info_enc(d: DenseInfoModel) -> Seq<u8> {
    key_enc(1, WIRE_LEN) + len_delim_enc(packed_enc(raws_of_int32(d.version))) + key_enc(
        2,
        WIRE_LEN,
    ) + len_delim_enc(packed_enc(raws_of_sint64(d.timestamp))) + key_enc(3, WIRE_LEN)
        + len_delim_enc(packed_enc(raws_of_sint64(d.changeset))) + key_enc(4, WIRE_LEN)
        + len_delim_enc(packed_enc(raws_of_sint32(d.uid))) + key_enc(5, WIRE_LEN)
        + len_delim_enc(packed_enc(raws_of_sint32(d.user_sid))) + key_enc(6, WIRE_LEN)
        + len_delim_enc(packed_enc(raws_of_bool(d.visible)))
}

/// Appends the encoding of a `DenseInfo`.
#[verifier::rlimit(100)]
pub fn encode_dense_info(out: &mut Vec<u8>, d: &DenseInfo)
    ensures
        final(out)@ == old(out)@ + dense_info_enc(d@),
{
    let version_raws = int32_raws(&d.version);
    let mut version_payload: Vec<u8> = Vec::new();
    write_packed(&mut version_payload, &version_raws);
    write_bytes_field(out, 1, version_payload.as_slice());
    let time_raws = sint64_raws(&d.timestamp);
    let mut time_payload: Vec<u8> = Vec::new();
    write_packed(&mut time_payload, &time_raws);
    write_bytes_field(out, 2, time_payload.as_slice());
    let change_raws = sint64_raws(&d.changeset);
    let mut change_payload: Vec<u8> = Vec::new();
    write_packed(&mut change_payload, &change_raws);
    write_bytes_field(out, 3, change_payload.as_slice());
    let uid_raws = sint32_raws(&d.uid);
    let mut uid_payload: Vec<u8> = Vec::new();
    write_packed(&mut uid_payload, &uid_raws);
    write_bytes_field(out, 4, uid_payload.as_slice());
    let sid_raws = sint32_raws(&d.user_sid);
    let mut sid_payload: Vec<u8> = Vec::new();
    write_packed(&mut sid_payload, &sid_raws);
    write_bytes_field(out, 5, sid_payload.as_slice());
    let vis_raws = bool_raws(&d.visible);
    let mut vis_payload: Vec<u8> = Vec::new();
    write_packed(&mut vis_payload, &vis_raws);
    write_bytes_field(out, 6, vis_payload.as_slice());
    assert(final(out)@ =~= old(out)@ + dense_info_enc(d@));
}

/// A dense node run: parallel delta-coded arrays, a packed tag stream,
/// and optional metadata arrays.
pub struct DenseNodes {
    pub id: Vec<i64>,
    pub lat: Vec<i64>,
    pub lon: Vec<i64>,
    pub keys_vals: Vec<i32>,
    pub denseinfo: Option<DenseInfo>,
}

#[verifier::ext_equal]
pub struct DenseNodesModel {
    pub id: Seq<i64>,
    pub lat: Seq<i64>,
    pub lon: Seq<i64>,
    pub keys_vals: Seq<i32>,
    pub denseinfo: Option<DenseInfoModel>,
}

impl View for DenseNodes {
    type V = DenseNodesModel;

    open spec fn view(&self) -> DenseNodesModel {
        DenseNodesModel {
            id: self.id@,
            lat: self.lat@,
            lon: self.lon@,
            keys_vals: self.keys_vals@,
            denseinfo: match self.denseinfo {
                Some(d) => Some(d@),
                None => None,
            },
        }
    }
}

pub open spec fn dense_init() -> DenseNodesModel {
    DenseNodesModel {
        id: Seq::empty(),
        lat: Seq::empty(),
        lon: Seq::empty(),
        keys_vals: Seq::empty(),
        denseinfo: None,
    }
}

pub open spec fn dense_field(
    s: Seq<u8>,
    f: crate::wire::WireField,
    acc: DenseNodesModel,
) -> Option<DenseNodesModel> {
    if f.num == 1 && f.wire == WIRE_LEN {
        match packed_parse(s, f.start, f.end) {
            None => None,
            Some(raws) => Some(DenseNodesModel { id: acc.id + map_sint64(raws), ..acc }),
        }
    } else if f.num == 5 && f.wire == WIRE_LEN {
        match dense_info_parse(s, f.start, f.end) {
            None => None,
            Some(d) => Some(DenseNodesModel { denseinfo: Some(d), ..acc }),
        }
    } else if f.num == 8 && f.wire == WIRE_LEN {
        match packed_parse(s, f.start, f.end) {
            None => None,
            Some(raws) => Some(DenseNodesModel { lat: acc.lat + map_sint64(raws), ..acc }),
        }
    } else if f.num == 9 && f.wire == WIRE_LEN {
        match packed_parse(s, f.start, f.end) {
            None => None,
            Some(raws) => Some(DenseNodesModel { lon: acc.lon + map_sint64(raws), ..acc }),
        }
    } else if f.num == 10 && f.wire == WIRE_LEN {
        match packed_parse(s, f.start, f.end) {
            None => None,
            Some(raws) => Some(
                DenseNodesModel { keys_vals: acc.keys_vals + map_int32(raws), ..acc },
            ),
        }
    } else if f.num == 1 && f.wire == WIRE_VARINT {
        Some(DenseNodesModel { id: acc.id.push(crate::wire::zigzag_dec(f.raw)), ..acc })
    } else if f.num == 8 && f.wire == WIRE_VARINT {
        Some(DenseNodesModel { lat: acc.lat.push(crate::wire::zigzag_dec(f.raw)), ..acc })
    } else if f.num == 9 && f.wire == WIRE_VARINT {
        Some(DenseNodesModel { lon: acc.lon.push(crate::wire::zigzag_dec(f.raw)), ..acc })
    } else if f.num == 10 && f.wire == WIRE_VARINT {
        Some(DenseNodesModel { keys_vals: acc.keys_vals.push(trunc_i32(f.raw)), ..acc })
    } else {
        Some(acc)
    }
}

pub open spec fn dense_parse_rec(
    s: Seq<u8>,
    pos: int,
    end: int,
    acc: DenseNodesModel,
) -> Option<DenseNodesModel>
    decreases end - pos,
    when 0 <= pos <= end <= s.len()
    via dense_parse_decreases
{
    if pos == end {
        Some(acc)
    } else {
        match field_parse(s, pos) {
            None => None,
            Some(f) => if f.next > end {
                None
            } else {
                match dense_field(s, f, acc) {
                    None => None,
                    Some(acc2) => dense_parse_rec(s, f.next, end, acc2),
                }
            },
        }
    }
}

#[via_fn]
proof fn dense_parse_decreases(s: Seq<u8>, pos: int, end: int, acc: DenseNodesModel) {
    lemma_field_parse_bounds(s, pos);
}

/// Reads a whole `DenseNodes` message from `s[pos..end]`.
pub open spec fn dense_parse(s: Seq<u8>, pos: int, end: int) -> Option<DenseNodesModel> {
    dense_parse_rec(s, pos, end, dense_init())
}

/// Decodes a `DenseNodes` message from the given message area.
pub fn parse_dense(s: &[u8], start: usize, end: usize) -> (r: Option<DenseNodes>)
    requires
        start <= end <= s@.len(),
    ensures
        match dense_parse(s@, start as int, end as int) {
            Some(m) => r matches Some(d) && d@ == m,
            None => r is None,
        },
{
    let mut msg = DenseNodes {
        id: Vec::new(),
        lat: Vec::new(),
        lon: Vec::new(),
        keys_vals: Vec::new(),
        denseinfo: None,
    };
    let mut pos: usize = start;
    loop
        invariant
            start <= pos <= end <= s@.len(),
            dense_parse(s@, start as int, end as int) == dense_parse_rec(
                s@,
                pos as int,
                end as int,
                msg@,
            ),
        decreases end - pos,
    {
        if pos == end {
            return Some(msg);
        }
        proof {
            lemma_field_parse_bounds(s@, pos as int);
        }
        match read_field(s, pos) {
            None => {
                return None;
            },
            Some((num, fref, next)) => {
                if next > end {
                    return None;
                }
                match fref {
                    FieldRef::Bytes(a, b) => {
                        if num == 1 {
                            match read_packed(s, a, b) {
                                None => {
                                    return None;
                                },
                                Some(raws) => {
                                    let mut conv = sint64_values(&raws);
                                    msg.id.append(&mut conv);
                                },
                            }
                        } else if num == 5 {
                            match parse_dense_info(s, a, b) {
                                None => {
                                    return None;
                                },
                                Some(d) => {
                                    msg.denseinfo = Some(d);
                                },
                            }
                        } else if num == 8 {
                            match read_packed(s, a, b) {
                                None => {
                                    return None;
                                },
                                Some(raws) => {
                                    let mut conv = sint64_values(&raws);
                                    msg.lat.append(&mut conv);
                                },
                            }
                        } else if num == 9 {
                            match read_packed(s, a, b) {
                                None => {
                                    return None;
                                },
                                Some(raws) => {
                                    let mut conv = sint64_values(&raws);
                                    msg.lon.append(&mut conv);
                                },
                            }
                        } else if num == 10 {
                            match read_packed(s, a, b) {
                                None => {
                                    return None;
                                },
                                Some(raws) => {
                                    let mut conv = int32_values(&raws);
                                    msg.keys_vals.append(&mut conv);
                                },
                            }
                        }
                    },
                    FieldRef::Varint(v) => {
                        if num == 1 {
                            msg.id.push(crate::wire::zigzag_decode(v));
                        } else if num == 8 {
                            msg.lat.push(crate::wire::zigzag_decode(v));
                        } else if num == 9 {
                            msg.lon.push(crate::wire::zigzag_decode(v));
                        } else if num == 10 {
                            msg.keys_vals.push(trunc_i32_exec(v));
                        }
                    },
                    _ => {},
                }
                pos = next;
            },
        }
    }
}

/// The encoding this library writes for a `DenseNodes`.
pub open spec fn dense_enc(d: DenseNodesModel) -> Seq<u8> {
    key_enc(1, WIRE_LEN) + len_delim_enc(packed_enc(raws_of_sint64(d.id))) + (match d.denseinfo {
        Some(di) => key_enc(5, WIRE_LEN) + len_delim_enc(dense_info_enc(di)),
        None => Seq::empty(),
    }) + key_enc(8, WIRE_LEN) + len_delim_enc(packed_enc(raws_of_sint64(d.lat))) + key_enc(
        9,
        WIRE_LEN,
    ) + len_delim_enc(packed_enc(raws_of_sint64(d.lon))) + key_enc(10, WIRE_LEN)
        + len_delim_enc(packed_enc(raws_of_int32(d.keys_vals)))
}

/// Appends the encoding of a `DenseNodes`.
#[verifier::rlimit(100)]
pub fn encode_dense(out: &mut Vec<u8>, d: &DenseNodes)
    ensures
        final(out)@ == old(out)@ + dense_enc(d@),
{
    let id_raws = sint64_raws(&d.id);
    let mut id_payload: Vec<u8> = Vec::new();
    write_packed(&mut id_payload, &id_raws);
    write_bytes_field(out, 1, id_payload.as_slice());
    match d.denseinfo {
        Some(ref di) => {
            let mut di_payload: Vec<u8> = Vec::new();
            encode_dense_info(&mut di_payload, di);
            write_bytes_field(out, 5, di_payload.as_slice());
        },
        None => {},
    }
    let lat_raws = sint64_raws(&d.lat);
    let mut lat_payload: Vec<u8> = Vec::new();
    write_packed(&mut lat_payload, &lat_raws);
    write_bytes_field(out, 8, lat_payload.as_slice());
    let lon_raws = sint64_raws(&d.lon);
    let mut lon_payload: Vec<u8> = Vec::new();
    write_packed(&mut lon_payload, &lon_raws);
    write_bytes_field(out, 9, lon_payload.as_slice());
    let kv_raws = int32_raws(&d.keys_vals);
    let mut kv_payload: Vec<u8> = Vec::new();
    write_packed(&mut kv_payload, &kv_raws);
    write_bytes_field(out, 10, kv_payload.as_slice());
    assert(final(out)@ =~= old(out)@ + dense_enc(d@));
}

/// One primitive group: in a well-formed file exactly one of the entity
/// kinds is present, but the decoder keeps whatever it finds.
pub struct PrimitiveGroup {
    pub nodes: Vec<Node>,
    pub dense: Option<DenseNodes>,
    pub ways: Vec<Way>,
    pub relations: Vec<Relation>,
}

#[verifier::ext_equal]
pub struct PrimitiveGroupModel {
    pub nodes: Seq<NodeModel>,
    pub dense: Option<DenseNodesModel>,
    pub ways: Seq<WayModel>,
    pub relations: Seq<RelationModel>,
}

impl View for PrimitiveGroup {
    type V = PrimitiveGroupModel;

    open spec fn view(&self) -> PrimitiveGroupModel {
        PrimitiveGroupModel {
            nodes: self.nodes@.map_values(|n: Node| n@),
            dense: match self.dense {
                Some(d) => Some(d@),
                None => None,
            },
            ways: self.ways@.map_values(|w: Way| w@),
            relations: self.relations@.map_values(|r: Relation| r@),
        }
    }
}

pub open spec fn group_init() -> PrimitiveGroupModel {
    PrimitiveGroupModel {
        nodes: Seq::empty(),
        dense: None,
        ways: Seq::empty(),
        relations: Seq::empty(),
    }
}

pub open spec fn group_field(
    s: Seq<u8>,
    f: crate::wire::WireField,
    acc: PrimitiveGroupModel,
) -> Option<PrimitiveGroupModel> {
    if f.num == 1 && f.wire == WIRE_LEN {
        match node_parse(s, f.start, f.end) {
            None => None,
            Some(n) => Some(PrimitiveGroupModel { nodes: acc.nodes.push(n), ..acc }),
        }
    } else if f.num == 2 && f.wire == WIRE_LEN {
        match dense_parse(s, f.start, f.end) {
            None => None,
            Some(d) => Some(PrimitiveGroupModel { dense: Some(d), ..acc }),
        }
    } else if f.num == 3 && f.wire == WIRE_LEN {
        match way_parse(s, f.start, f.end) {
            None => None,
            Some(w) => Some(PrimitiveGroupModel { ways: acc.ways.push(w), ..acc }),
        }
    } else if f.num == 4 && f.wire == WIRE_LEN {
        match relation_parse(s, f.start, f.end) {
            None => None,
            Some(r) => Some(PrimitiveGroupModel { relations: acc.relations.push(r), ..acc }),
        }
    } else {
        Some(acc)
    }
}

pub open spec fn group_parse_rec(
    s: Seq<u8>,
    pos: int,
    end: int,
    acc: PrimitiveGroupModel,
) -> Option<PrimitiveGroupModel>
    decreases end - pos,
    when 0 <= pos <= end <= s.len()
    via group_parse_decreases
{
    if pos == end {
        Some(acc)
    } else {
        match field_parse(s, pos) {
            None => None,
            Some(f) => if f.next > end {
                None
            } else {
                match group_field(s, f, acc) {
                    None => None,
                    Some(acc2) => group_parse_rec(s, f.next, end, acc2),
                }
            },
        }
    }
}

#[via_fn]
proof fn group_parse_decreases(s: Seq<u8>, pos: int, end: int, acc: PrimitiveGroupModel) {
    lemma_field_parse_bounds(s, pos);
}

/// Reads a whole `PrimitiveGroup` message from `s[pos..end]`.
pub open spec fn group_parse(s: Seq<u8>, pos: int, end: int) -> Option<PrimitiveGroupModel> {
    group_parse_rec(s, pos, end, group_init())
}

/// Decodes a `PrimitiveGroup` message from the given message area.
pub fn parse_group(s: &[u8], start: usize, end: usize) -> (r: Option<PrimitiveGroup>)
    requires
        start <= end <= s@.len(),
    ensures
        match group_parse(s@, start as int, end as int) {
            Some(m) => r matches Some(g) && g@ == m,
            None => r is None,
        },
{
    let mut msg = PrimitiveGroup {
        nodes: Vec::new(),
        dense: None,
        ways: Vec::new(),
        relations: Vec::new(),
    };
    let mut pos: usize = start;
    proof {
        assert(msg@ =~= group_init());
    }
    loop
        invariant
            start <= pos <= end <= s@.len(),
            group_parse(s@, start as int, end as int) == group_parse_rec(
                s@,
                pos as int,
                end as int,
                msg@,
            ),
        decreases end - pos,
    {
        if pos == end {
            return Some(msg);
        }
        proof {
            lemma_field_parse_bounds(s@, pos as int);
        }
        match read_field(s, pos) {
            None => {
                return None;
            },
            Some((num, fref, next)) => {
                if next > end {
                    return None;
                }
                match fref {
                    FieldRef::Bytes(a, b) => {
                        if num == 1 {
                            match parse_node(s, a, b) {
                                None => {
                                    return None;
                                },
                                Some(n) => {
                                    proof {
                                        assert(msg.nodes@.push(n).map_values(|x: Node| x@)
                                            =~= msg.nodes@.map_values(|x: Node| x@).push(n@));
                                    }
                                    msg.nodes.push(n);
                                },
                            }
                        } else if num == 2 {
                            match parse_dense(s, a, b) {
                                None => {
                                    return None;
                                },
                                Some(d) => {
                                    msg.dense = Some(d);
                                },
                            }
                        } else if num == 3 {
                            match parse_way(s, a, b) {
                                None => {
                                    return None;
                                },
                                Some(w) => {
                                    proof {
                                        assert(msg.ways@.push(w).map_values(|x: Way| x@)
                                            =~= msg.ways@.map_values(|x: Way| x@).push(w@));
                                    }
                                    msg.ways.push(w);
                                },
                            }
                        } else if num == 4 {
                            match parse_relation(s, a, b) {
                                None => {
                                    return None;
                                },
                                Some(rel) => {
                                    proof {
                                        assert(msg.relations@.push(rel).map_values(
                                            |x: Relation| x@,
                                        ) =~= msg.relations@.map_values(|x: Relation| x@).push(
                                            rel@,
                                        ));
                                    }
                                    msg.relations.push(rel);
                                },
                            }
                        }
                    },
                    _ => {},
                }
                pos = next;
            },
        }
    }
}

/// The encodings of a run of `Node` fields.
pub open spec fn nodes_enc(ns: Seq<NodeModel>) -> Seq<u8>
    decreases ns.len(),
{
    if ns.len() == 0 {
        Seq::empty()
    } else {
        key_enc(1, WIRE_LEN) + len_delim_enc(node_enc(ns[0])) + nodes_enc(ns.drop_first())
    }
}

/// The encodings of a run of `Way` fields.
pub open spec fn ways_enc(ws: Seq<WayModel>) -> Seq<u8>
    decreases ws.len(),
{
    if ws.len() == 0 {
        Seq::empty()
    } else {
        key_enc(3, WIRE_LEN) + len_delim_enc(way_enc(ws[0])) + ways_enc(ws.drop_first())
    }
}

/// The encodings of a run of `Relation` fields.
pub open spec fn relations_enc(rs: Seq<RelationModel>) -> Seq<u8>
    decreases rs.len(),
{
    if rs.len() == 0 {
        Seq::empty()
    } else {
        key_enc(4, WIRE_LEN) + len_delim_enc(relation_enc(rs[0])) + relations_enc(
            rs.drop_first(),
        )
    }
}

pub proof fn lemma_nodes_enc_push(ns: Seq<NodeModel>, n: NodeModel)
    ensures
        nodes_enc(ns.push(n)) == nodes_enc(ns) + key_enc(1, WIRE_LEN) + len_delim_enc(
            node_enc(n),
        ),
    decreases ns.len(),
{
    if ns.len() == 0 {
        assert(ns.push(n).drop_first() =~= Seq::<NodeModel>::empty());
        assert(ns.push(n)[0] == n);
        assert(nodes_enc(ns.push(n)) == key_enc(1, WIRE_LEN) + len_delim_enc(node_enc(n))
            + nodes_enc(ns.push(n).drop_first()));
        assert(nodes_enc(ns.push(n)) =~= nodes_enc(ns) + key_enc(1, WIRE_LEN) + len_delim_enc(
            node_enc(n),
        ));
    } else {
        let u = ns.push(n);
        assert(u[0] == ns[0]);
        assert(u.drop_first() =~= ns.drop_first().push(n));
        lemma_nodes_enc_push(ns.drop_first(), n);
        assert(nodes_enc(u) == key_enc(1, WIRE_LEN) + len_delim_enc(node_enc(u[0]))
            + nodes_enc(u.drop_first()));
        assert(nodes_enc(ns) == key_enc(1, WIRE_LEN) + len_delim_enc(node_enc(ns[0]))
            + nodes_enc(ns.drop_first()));
        assert(nodes_enc(ns.push(n)) =~= nodes_enc(ns) + key_enc(1, WIRE_LEN) + len_delim_enc(
            node_enc(n),
        ));
    }
}

pub proof fn lemma_ways_enc_push(ws: Seq<WayModel>, w: WayModel)
    ensures
        ways_enc(ws.push(w)) == ways_enc(ws) + key_enc(3, WIRE_LEN) + len_delim_enc(way_enc(w)),
    decreases ws.len(),
{
    if ws.len() == 0 {
        assert(ws.push(w).drop_first() =~= Seq::<WayModel>::empty());
        assert(ws.push(w)[0] == w);
        assert(ways_enc(ws.push(w)) == key_enc(3, WIRE_LEN) + len_delim_enc(way_enc(w))
            + ways_enc(ws.push(w).drop_first()));
        assert(ways_enc(ws.push(w)) =~= ways_enc(ws) + key_enc(3, WIRE_LEN) + len_delim_enc(
            way_enc(w),
        ));
    } else {
        let u = ws.push(w);
        assert(u[0] == ws[0]);
        assert(u.drop_first() =~= ws.drop_first().push(w));
        lemma_ways_enc_push(ws.drop_first(), w);
        assert(ways_enc(u) == key_enc(3, WIRE_LEN) + len_delim_enc(way_enc(u[0])) + ways_enc(
            u.drop_first(),
        ));
        assert(ways_enc(ws) == key_enc(3, WIRE_LEN) + len_delim_enc(way_enc(ws[0]))
            + ways_enc(ws.drop_first()));
        assert(ways_enc(ws.push(w)) =~= ways_enc(ws) + key_enc(3, WIRE_LEN) + len_delim_enc(
            way_enc(w),
        ));
    }
}

pub proof fn lemma_relations_enc_push(rs: Seq<RelationModel>, rel: RelationModel)
    ensures
        relations_enc(rs.push(rel)) == relations_enc(rs) + key_enc(4, WIRE_LEN)
            + len_delim_enc(relation_enc(rel)),
    decreases rs.len(),
{
    if rs.len() == 0 {
        assert(rs.push(rel).drop_first() =~= Seq::<RelationModel>::empty());
        assert(rs.push(rel)[0] == rel);
        assert(relations_enc(rs.push(rel)) == key_enc(4, WIRE_LEN) + len_delim_enc(
            relation_enc(rel),
        ) + relations_enc(rs.push(rel).drop_first()));
        assert(relations_enc(rs.push(rel)) =~= relations_enc(rs) + key_enc(4, WIRE_LEN)
            + len_delim_enc(relation_enc(rel)));
    } else {
        let u = rs.push(rel);
        assert(u[0] == rs[0]);
        assert(u.drop_first() =~= rs.drop_first().push(rel));
        lemma_relations_enc_push(rs.drop_first(), rel);
        assert(relations_enc(u) == key_enc(4, WIRE_LEN) + len_delim_enc(relation_enc(u[0]))
            + relations_enc(u.drop_first()));
        assert(relations_enc(rs) == key_enc(4, WIRE_LEN) + len_delim_enc(relation_enc(rs[0]))
            + relations_enc(rs.drop_first()));
        assert(relations_enc(rs.push(rel)) =~= relations_enc(rs) + key_enc(4, WIRE_LEN)
            + len_delim_enc(relation_enc(rel)));
    }
}

/// The encoding this library writes for a `PrimitiveGroup`.
pub open spec fn group_enc(g: PrimitiveGroupModel) -> Seq<u8> {
    nodes_enc(g.nodes) + (match g.dense {
        Some(d) => key_enc(2, WIRE_LEN) + len_delim_enc(dense_enc(d)),
        None => Seq::empty(),
    }) + ways_enc(g.ways) + relations_enc(g.relations)
}

/// Appends the encoding of a `PrimitiveGroup`.
#[verifier::rlimit(100)]
pub fn encode_group(out: &mut Vec<u8>, g: &PrimitiveGroup)
    ensures
        final(out)@ == old(out)@ + group_enc(g@),
{
    let ghost nodes_view = g.nodes@.map_values(|x: Node| x@);
    let mut i: usize = 0;
    proof {
        assert(nodes_view.take(0) =~= Seq::<NodeModel>::empty());
    }
    while i < g.nodes.len()
        invariant
            i <= g.nodes@.len(),
            nodes_view == g.nodes@.map_values(|x: Node| x@),
            out@ == old(out)@ + nodes_enc(nodes_view.take(i as int)),
        decreases g.nodes@.len() - i,
    {
        proof {
            lemma_nodes_enc_push(nodes_view.take(i as int), nodes_view[i as int]);
            assert(nodes_view.take(i as int).push(nodes_view[i as int]) =~= nodes_view.take(
                i as int + 1,
            ));
        }
        let mut payload: Vec<u8> = Vec::new();
        encode_node(&mut payload, &g.nodes[i]);
        write_bytes_field(out, 1, payload.as_slice());
        i += 1;
    }
    proof {
        assert(nodes_view.take(g.nodes@.len() as int) =~= nodes_view);
    }
    match g.dense {
        Some(ref d) => {
            let mut payload: Vec<u8> = Vec::new();
            encode_dense(&mut payload, d);
            write_bytes_field(out, 2, payload.as_slice());
        },
        None => {},
    }
    let ghost ways_view = g.ways@.map_values(|x: Way| x@);
    let ghost out_before_ways = out@;
    let mut j: usize = 0;
    proof {
        assert(ways_view.take(0) =~= Seq::<WayModel>::empty());
    }
    while j < g.ways.len()
        invariant
            j <= g.ways@.len(),
            ways_view == g.ways@.map_values(|x: Way| x@),
            out@ == out_before_ways + ways_enc(ways_view.take(j as int)),
        decreases g.ways@.len() - j,
    {
        proof {
            lemma_ways_enc_push(ways_view.take(j as int), ways_view[j as int]);
            assert(ways_view.take(j as int).push(ways_view[j as int]) =~= ways_view.take(
                j as int + 1,
            ));
        }
        let mut payload: Vec<u8> = Vec::new();
        encode_way(&mut payload, &g.ways[j]);
        write_bytes_field(out, 3, payload.as_slice());
        j += 1;
    }
    proof {
        assert(ways_view.take(g.ways@.len() as int) =~= ways_view);
    }
    let ghost rels_view = g.relations@.map_values(|x: Relation| x@);
    let ghost out_before_rels = out@;
    let mut k: usize = 0;
    proof {
        assert(rels_view.take(0) =~= Seq::<RelationModel>::empty());
    }
    while k < g.relations.len()
        invariant
            k <= g.relations@.len(),
            rels_view == g.relations@.map_values(|x: Relation| x@),
            out@ == out_before_rels + relations_enc(rels_view.take(k as int)),
        decreases g.relations@.len() - k,
    {
        proof {
            lemma_relations_enc_push(rels_view.take(k as int), rels_view[k as int]);
            assert(rels_view.take(k as int).push(rels_view[k as int]) =~= rels_view.take(
                k as int + 1,
            ));
        }
        let mut payload: Vec<u8> = Vec::new();
        encode_relation(&mut payload, &g.relations[k]);
        write_bytes_field(out, 4, payload.as_slice());
        k += 1;
    }
    proof {
        assert(rels_view.take(g.relations@.len() as int) =~= rels_view);
        assert(final(out)@ =~= old(out)@ + group_enc(g@));
    }
}

/// A primitive block: its string table, groups, and coordinate frame.
pub struct PrimitiveBlock {
    pub stringtable: Vec<Vec<u8>>,
    pub groups: Vec<PrimitiveGroup>,
    pub granularity: i32,
    pub date_granularity: i32,
    pub lat_offset: i64,
    pub lon_offset: i64,
}

#[verifier::ext_equal]
pub struct PrimitiveBlockModel {
    pub stringtable: Seq<Seq<u8>>,
    pub groups: Seq<PrimitiveGroupModel>,
    pub granularity: i32,
    pub date_granularity: i32,
    pub lat_offset: i64,
    pub lon_offset: i64,
}

impl View for PrimitiveBlock {
    type V = PrimitiveBlockModel;

    open spec fn view(&self) -> PrimitiveBlockModel {
        PrimitiveBlockModel {
            stringtable: deep_bytes(self.stringtable@),
            groups: self.groups@.map_values(|g: PrimitiveGroup| g@),
            granularity: self.granularity,
            date_granularity: self.date_granularity,
            lat_offset: self.lat_offset,
            lon_offset: self.lon_offset,
        }
    }
}

/// Absent fields keep the format's defaults: granularity 100,
/// date granularity 1000, offsets 0.
pub open spec fn block_init() -> PrimitiveBlockModel {
    PrimitiveBlockModel {
        stringtable: Seq::empty(),
        groups: Seq::empty(),
        granularity: 100,
        date_granularity: 1000,
        lat_offset: 0,
        lon_offset: 0,
    }
}

pub open spec fn block_field(
    s: Seq<u8>,
    f: crate::wire::WireField,
    acc: PrimitiveBlockModel,
) -> Option<PrimitiveBlockModel> {
    if f.num == 1 && f.wire == WIRE_LEN {
        match string_table_parse(s, f.start, f.end) {
            None => None,
            Some(t) => Some(PrimitiveBlockModel { stringtable: acc.stringtable + t, ..acc }),
        }
    } else if f.num == 2 && f.wire == WIRE_LEN {
        match group_parse(s, f.start, f.end) {
            None => None,
            Some(g) => Some(PrimitiveBlockModel { groups: acc.groups.push(g), ..acc }),
        }
    } else if f.num == 17 && f.wire == WIRE_VARINT {
        Some(PrimitiveBlockModel { granularity: trunc_i32(f.raw), ..acc })
    } else if f.num == 18 && f.wire == WIRE_VARINT {
        Some(PrimitiveBlockModel { date_granularity: trunc_i32(f.raw), ..acc })
    } else if f.num == 19 && f.wire == WIRE_VARINT {
        Some(PrimitiveBlockModel { lat_offset: i64_of_u64(f.raw), ..acc })
    } else if f.num == 20 && f.wire == WIRE_VARINT {
        Some(PrimitiveBlockModel { lon_offset: i64_of_u64(f.raw), ..acc })
    } else {
        Some(acc)
    }
}

pub open spec fn block_parse_rec(
    s: Seq<u8>,
    pos: int,
    end: int,
    acc: PrimitiveBlockModel,
) -> Option<PrimitiveBlockModel>
    decreases end - pos,
    when 0 <= pos <= end <= s.len()
    via block_parse_decreases
{
    if pos == end {
        Some(acc)
    } else {
        match field_parse(s, pos) {
            None => None,
            Some(f) => if f.next > end {
                None
            } else {
                match block_field(s, f, acc) {
                    None => None,
                    Some(acc2) => block_parse_rec(s, f.next, end, acc2),
                }
            },
        }
    }
}

#[via_fn]
proof fn block_parse_decreases(s: Seq<u8>, pos: int, end: int, acc: PrimitiveBlockModel) {
    lemma_field_parse_bounds(s, pos);
}

/// Reads a whole `PrimitiveBlock` message from `s[pos..end]`.
pub open spec fn block_parse(s: Seq<u8>, pos: int, end: int) -> Option<PrimitiveBlockModel> {
    block_parse_rec(s, pos, end, block_init())
}

/// Decodes a `PrimitiveBlock` message from the given message area.
pub fn parse_block(s: &[u8], start: usize, end: usize) -> (r: Option<PrimitiveBlock>)
    requires
        start <= end <= s@.len(),
    ensures
        match block_parse(s@, start as int, end as int) {
            Some(m) => r matches Some(b) && b@ == m,
            None => r is None,
        },
{
    let mut msg = PrimitiveBlock {
        stringtable: Vec::new(),
        groups: Vec::new(),
        granularity: 100,
        date_granularity: 1000,
        lat_offset: 0,
        lon_offset: 0,
    };
    let mut pos: usize = start;
    proof {
        assert(msg@ =~= block_init());
    }
    loop
        invariant
            start <= pos <= end <= s@.len(),
            block_parse(s@, start as int, end as int) == block_parse_rec(
                s@,
                pos as int,
                end as int,
                msg@,
            ),
        decreases end - pos,
    {
        if pos == end {
            return Some(msg);
        }
        proof {
            lemma_field_parse_bounds(s@, pos as int);
        }
        match read_field(s, pos) {
            None => {
                return None;
            },
            Some((num, fref, next)) => {
                if next > end {
                    return None;
                }
                match fref {
                    FieldRef::Varint(v) => {
                        if num == 17 {
                            msg.granularity = trunc_i32_exec(v);
                        } else if num == 18 {
                            msg.date_granularity = trunc_i32_exec(v);
                        } else if num == 19 {
                            msg.lat_offset = i64_from_u64(v);
                        } else if num == 20 {
                            msg.lon_offset = i64_from_u64(v);
                        }
                    },
                    FieldRef::Bytes(a, b) => {
                        if num == 1 {
                            match parse_string_table_msg(s, a, b) {
                                None => {
                                    return None;
                                },
                                Some(mut t) => {
                                    proof {
                                        assert(deep_bytes(msg.stringtable@ + t@) =~= deep_bytes(
                                            msg.stringtable@,
                                        ) + deep_bytes(t@));
                                    }
                                    msg.stringtable.append(&mut t);
                                },
                            }
                        } else if num == 2 {
                            match parse_group(s, a, b) {
                                None => {
                                    return None;
                                },
                                Some(g) => {
                                    proof {
                                        assert(msg.groups@.push(g).map_values(
                                            |x: PrimitiveGroup| x@,
                                        ) =~= msg.groups@.map_values(
                                            |x: PrimitiveGroup| x@,
                                        ).push(g@));
                                    }
                                    msg.groups.push(g);
                                },
                            }
                        }
                    },
                    FieldRef::Skip => {},
                }
                pos = next;
            },
        }
    }
}

/// The encodings of a run of `PrimitiveGroup` fields.
pub open spec fn groups_enc(gs: Seq<PrimitiveGroupModel>) -> Seq<u8>
    decreases gs.len(),
{
    if gs.len() == 0 {
        Seq::empty()
    } else {
        key_enc(2, WIRE_LEN) + len_delim_enc(group_enc(gs[0])) + groups_enc(gs.drop_first())
    }
}

#[verifier::rlimit(50)]
pub proof fn lemma_groups_enc_push(gs: Seq<PrimitiveGroupModel>, g: PrimitiveGroupModel)
    ensures
        groups_enc(gs.push(g)) == groups_enc(gs) + key_enc(2, WIRE_LEN) + len_delim_enc(
            group_enc(g),
        ),
    decreases gs.len(),
{
    if gs.len() == 0 {
        assert(gs.push(g).drop_first() =~= Seq::<PrimitiveGroupModel>::empty());
        assert(gs.push(g)[0] == g);
        assert(groups_enc(gs.push(g)) == key_enc(2, WIRE_LEN) + len_delim_enc(group_enc(g))
            + groups_enc(gs.push(g).drop_first()));
        assert(groups_enc(gs.push(g)) =~= groups_enc(gs) + key_enc(2, WIRE_LEN)
            + len_delim_enc(group_enc(g)));
    } else {
        let u = gs.push(g);
        assert(u[0] == gs[0]);
        assert(u.drop_first() =~= gs.drop_first().push(g));
        lemma_groups_enc_push(gs.drop_first(), g);
        assert(groups_enc(u) == key_enc(2, WIRE_LEN) + len_delim_enc(group_enc(u[0]))
            + groups_enc(u.drop_first()));
        assert(groups_enc(gs) == key_enc(2, WIRE_LEN) + len_delim_enc(group_enc(gs[0]))
            + groups_enc(gs.drop_first()));
        assert(groups_enc(gs.push(g)) =~= groups_enc(gs) + key_enc(2, WIRE_LEN)
            + len_delim_enc(group_enc(g)));
    }
}

/// The encoding this library writes for a `PrimitiveBlock`.
pub open spec fn block_enc(b: PrimitiveBlockModel) -> Seq<u8> {
    key_enc(1, WIRE_LEN) + len_delim_enc(string_table_enc(b.stringtable)) + groups_enc(b.groups)
        + key_enc(17, WIRE_VARINT) + varint_enc(i32_as_varint_val(b.granularity) as nat)
        + key_enc(18, WIRE_VARINT) + varint_enc(i32_as_varint_val(b.date_granularity) as nat)
        + key_enc(19, WIRE_VARINT) + varint_enc(u64_of_i64(b.lat_offset) as nat) + key_enc(
        20,
        WIRE_VARINT,
    ) + varint_enc(u64_of_i64(b.lon_offset) as nat)
}

/// Appends the encoding of a `PrimitiveBlock`.
#[verifier::rlimit(100)]
pub fn encode_block(out: &mut Vec<u8>, b: &PrimitiveBlock)
    ensures
        final(out)@ == old(out)@ + block_enc(b@),
{
    let mut table_payload: Vec<u8> = Vec::new();
    encode_string_table(&mut table_payload, &b.stringtable);
    write_bytes_field(out, 1, table_payload.as_slice());
    let ghost groups_view = b.groups@.map_values(|x: PrimitiveGroup| x@);
    let ghost out_before_groups = out@;
    let mut i: usize = 0;
    proof {
        assert(groups_view.take(0) =~= Seq::<PrimitiveGroupModel>::empty());
    }
    while i < b.groups.len()
        invariant
            i <= b.groups@.len(),
            groups_view == b.groups@.map_values(|x: PrimitiveGroup| x@),
            out@ == out_before_groups + groups_enc(groups_view.take(i as int)),
        decreases b.groups@.len() - i,
    {
        proof {
            lemma_groups_enc_push(groups_view.take(i as int), groups_view[i as int]);
            assert(groups_view.take(i as int).push(groups_view[i as int]) =~= groups_view.take(
                i as int + 1,
            ));
        }
        let mut payload: Vec<u8> = Vec::new();
        encode_group(&mut payload, &b.groups[i]);
        write_bytes_field(out, 2, payload.as_slice());
        i += 1;
    }
    proof {
        assert(groups_view.take(b.groups@.len() as int) =~= groups_view);
    }
    write_varint_field(out, 17, i32_to_varint_val(b.granularity));
    write_varint_field(out, 18, i32_to_varint_val(b.date_granularity));
    write_varint_field(out, 19, i64_to_u64(b.lat_offset));
    write_varint_field(out, 20, i64_to_u64(b.lon_offset));
    assert(final(out)@ =~= old(out)@ + block_enc(b@));
}

/// Parsing an encoded `Info` recovers it.
#[verifier::rlimit(100)]
pub proof fn lemma_info_roundtrip(s: Seq<u8>, pos: int, m: Info)
    requires
        0 <= pos,
        pos + info_enc(m).len() <= s.len(),
        s.subrange(pos, pos + info_enc(m).len()) == info_enc(m),
    ensures
        info_parse(s, pos, pos + info_enc(m).len()) == Some(m),
{
    let f1 = key_enc(1, WIRE_VARINT) + varint_enc(i32_as_varint_val(m.version) as nat);
    let f2 = key_enc(2, WIRE_VARINT) + varint_enc(u64_of_i64(m.timestamp) as nat);
    let f3 = key_enc(3, WIRE_VARINT) + varint_enc(u64_of_i64(m.changeset) as nat);
    let f4 = key_enc(4, WIRE_VARINT) + varint_enc(i32_as_varint_val(m.uid) as nat);
    let f5 = key_enc(5, WIRE_VARINT) + varint_enc(m.user_sid as nat);
    let f6 = key_enc(6, WIRE_VARINT) + varint_enc(
        if m.visible {
            1
        } else {
            0
        },
    );
    let end = pos + info_enc(m).len();
    vstd::seq_lib::lemma_concat_associative(f1 + f2 + f3 + f4, f5, f6);
    vstd::seq_lib::lemma_concat_associative(f1 + f2 + f3, f4, f5 + (f6));
    vstd::seq_lib::lemma_concat_associative(f1 + f2, f3, f4 + (f5 + (f6)));
    vstd::seq_lib::lemma_concat_associative(f1, f2, f3 + (f4 + (f5 + (f6))));
    assert(info_enc(m) == f1 + (f2 + (f3 + (f4 + (f5 + f6)))));
    lemma_subrange_concat(s, pos, f1, f2 + (f3 + (f4 + (f5 + f6))));
    let p1 = pos + f1.len();
    lemma_subrange_concat(s, p1, f2, f3 + (f4 + (f5 + f6)));
    let p2 = p1 + f2.len();
    lemma_subrange_concat(s, p2, f3, f4 + (f5 + f6));
    let p3 = p2 + f3.len();
    lemma_subrange_concat(s, p3, f4, f5 + f6);
    let p4 = p3 + f4.len();
    lemma_subrange_concat(s, p4, f5, f6);
    let p5 = p4 + f5.len();
    lemma_field_parse_varint(s, pos, 1, i32_as_varint_val(m.version));
    lemma_field_parse_varint(s, p1, 2, u64_of_i64(m.timestamp));
    lemma_field_parse_varint(s, p2, 3, u64_of_i64(m.changeset));
    lemma_field_parse_varint(s, p3, 4, i32_as_varint_val(m.uid));
    lemma_field_parse_varint(s, p4, 5, m.user_sid as u64);
    lemma_field_parse_varint(
        s,
        p5,
        6,
        if m.visible {
            1u64
        } else {
            0u64
        },
    );
    lemma_i32_varint_roundtrip(m.version);
    lemma_i64_varint_roundtrip(m.timestamp);
    lemma_i64_varint_roundtrip(m.changeset);
    lemma_i32_varint_roundtrip(m.uid);
    let a0 = info_init();
    let a1 = Info { version: m.version, ..a0 };
    let a2 = Info { timestamp: m.timestamp, ..a1 };
    let a3 = Info { changeset: m.changeset, ..a2 };
    let a4 = Info { uid: m.uid, ..a3 };
    let a5 = Info { user_sid: m.user_sid, ..a4 };
    let a6 = Info { visible: m.visible, ..a5 };
    assert(info_parse_rec(s, pos, end, a0) == info_parse_rec(s, p1, end, a1));
    assert(info_parse_rec(s, p1, end, a1) == info_parse_rec(s, p2, end, a2));
    assert(info_parse_rec(s, p2, end, a2) == info_parse_rec(s, p3, end, a3));
    assert(info_parse_rec(s, p3, end, a3) == info_parse_rec(s, p4, end, a4));
    assert(info_parse_rec(s, p4, end, a4) == info_parse_rec(s, p5, end, a5));
    assert(info_parse_rec(s, p5, end, a5) == info_parse_rec(s, end, end, a6));
    assert(info_parse_rec(s, end, end, a6) == Some(a6));
    assert(a6 == m);
}

/// An encoded `Info` is short: twelve keys and varints.
pub proof fn lemma_info_enc_len(i: Info)
    ensures
        info_enc(i).len() <= 66,
{
    crate::wire::lemma_varint_enc_len(i32_as_varint_val(i.version) as nat);
    crate::wire::lemma_varint_enc_len(u64_of_i64(i.timestamp) as nat);
    crate::wire::lemma_varint_enc_len(u64_of_i64(i.changeset) as nat);
    crate::wire::lemma_varint_enc_len(i32_as_varint_val(i.uid) as nat);
    crate::wire::lemma_varint_enc_len(i.user_sid as nat);
    crate::wire::lemma_varint_enc_len(
        if i.visible {
            1
        } else {
            0
        },
    );
    assert(key_enc(1, WIRE_VARINT).len() == 1);
    assert(key_enc(2, WIRE_VARINT).len() == 1);
    assert(key_enc(3, WIRE_VARINT).len() == 1);
    assert(key_enc(4, WIRE_VARINT).len() == 1);
    assert(key_enc(5, WIRE_VARINT).len() == 1);
    assert(key_enc(6, WIRE_VARINT).len() == 1);
}

/// Parsing an encoded `StringTable` recovers its entries, appended to
/// whatever the accumulator already held.
proof fn lemma_string_table_rec_roundtrip(
    s: Seq<u8>,
    pos: int,
    entries: Seq<Seq<u8>>,
    acc: Seq<Seq<u8>>,
)
    requires
        0 <= pos,
        forall|i: int| 0 <= i < entries.len() ==> (#[trigger] entries[i]).len() <= u64::MAX,
        pos + string_table_enc(entries).len() <= s.len(),
        s.subrange(pos, pos + string_table_enc(entries).len()) == string_table_enc(entries),
    ensures
        string_table_parse_rec(s, pos, pos + string_table_enc(entries).len(), acc) == Some(
            acc + entries,
        ),
    decreases entries.len(),
{
    let end = pos + string_table_enc(entries).len();
    if entries.len() == 0 {
        assert(string_table_parse_rec(s, pos, end, acc) == Some(acc));
        assert(acc + entries =~= acc);
    } else {
        let f0 = key_enc(1, WIRE_LEN) + len_delim_enc(entries[0]);
        let rest = string_table_enc(entries.drop_first());
        assert(string_table_enc(entries) =~= f0 + rest);
        lemma_subrange_concat(s, pos, f0, rest);
        lemma_field_parse_bytes(s, pos, 1, entries[0]);
        let p1 = pos + f0.len();
        assert forall|i: int| 0 <= i < entries.drop_first().len() implies (
        #[trigger] entries.drop_first()[i]).len() <= u64::MAX by {
            assert(entries.drop_first()[i] == entries[i + 1]);
        }
        lemma_string_table_rec_roundtrip(s, p1, entries.drop_first(), acc.push(entries[0]));
        assert(string_table_parse_rec(s, pos, end, acc) == string_table_parse_rec(
            s,
            p1,
            end,
            acc.push(entries[0]),
        ));
        assert(acc.push(entries[0]) + entries.drop_first() =~= acc + entries);
    }
}

/// Parsing an encoded `StringTable` recovers its entries.
pub proof fn lemma_string_table_roundtrip(s: Seq<u8>, pos: int, entries: Seq<Seq<u8>>)
    requires
        0 <= pos,
        forall|i: int| 0 <= i < entries.len() ==> (#[trigger] entries[i]).len() <= u64::MAX,
        pos + string_table_enc(entries).len() <= s.len(),
        s.subrange(pos, pos + string_table_enc(entries).len()) == string_table_enc(entries),
    ensures
        string_table_parse(s, pos, pos + string_table_enc(entries).len()) == Some(entries),
{
    lemma_string_table_rec_roundtrip(s, pos, entries, Seq::empty());
    assert(Seq::<Seq<u8>>::empty() + entries =~= entries);
}

/// The last two fields of an encoded `Way`: optional metadata, then
/// the delta-coded node references.
#[verifier::rlimit(100)]
proof fn lemma_way_suffix(s: Seq<u8>, p: int, end: int, m: WayModel, acc: WayModel)
    requires
        0 <= p,
        acc == (WayModel { info: None, refs: Seq::<i64>::empty(), ..m }),
        packed_enc(raws_of_sint64(m.refs)).len() <= u64::MAX,
        ({
            let f4 = (match m.info {
                Some(i) => key_enc(4, WIRE_LEN) + len_delim_enc(info_enc(i)),
                None => Seq::<u8>::empty(),
            });
            let f8 = key_enc(8, WIRE_LEN) + len_delim_enc(packed_enc(raws_of_sint64(m.refs)));
            &&& end == p + (f4 + f8).len()
            &&& end <= s.len()
            &&& s.subrange(p, end) == f4 + f8
        }),
    ensures
        way_parse_rec(s, p, end, acc) == Some(m),
{
    let f4 = (match m.info {
        Some(i) => key_enc(4, WIRE_LEN) + len_delim_enc(info_enc(i)),
        None => Seq::<u8>::empty(),
    });
    let f8 = key_enc(8, WIRE_LEN) + len_delim_enc(packed_enc(raws_of_sint64(m.refs)));
    lemma_subrange_concat(s, p, f4, f8);
    let p4 = p + f4.len();
    let a4 = WayModel { info: m.info, ..acc };
    match m.info {
        Some(i) => {
            lemma_info_enc_len(i);
            lemma_field_parse_bytes(s, p, 4, info_enc(i));
            lemma_info_roundtrip(s, p + key_enc(4, WIRE_LEN).len() + varint_enc(
                info_enc(i).len(),
            ).len(), i);
            assert(way_parse_rec(s, p, end, acc) == way_parse_rec(s, p4, end, a4));
        },
        None => {
            assert(a4 =~= acc);
        },
    }
    lemma_field_parse_bytes(s, p4, 8, packed_enc(raws_of_sint64(m.refs)));
    lemma_packed_enc_parse(s, p4 + key_enc(8, WIRE_LEN).len() + varint_enc(
        packed_enc(raws_of_sint64(m.refs)).len(),
    ).len(), raws_of_sint64(m.refs));
    lemma_sint64_values_roundtrip(m.refs);
    let a5 = WayModel { refs: m.refs, ..a4 };
    assert(Seq::<i64>::empty() + m.refs =~= m.refs);
    assert(way_parse_rec(s, p4, end, a4) == way_parse_rec(s, end, end, a5));
    assert(way_parse_rec(s, end, end, a5) == Some(a5));
    assert(a5 =~= m);
}

/// Parsing an encoded `Way` recovers it.
#[verifier::rlimit(100)]
pub proof fn lemma_way_enc_roundtrip(s: Seq<u8>, pos: int, m: WayModel)
    requires
        0 <= pos,
        packed_enc(raws_of_uint32(m.keys)).len() <= u64::MAX,
        packed_enc(raws_of_uint32(m.vals)).len() <= u64::MAX,
        packed_enc(raws_of_sint64(m.refs)).len() <= u64::MAX,
        pos + way_enc(m).len() <= s.len(),
        s.subrange(pos, pos + way_enc(m).len()) == way_enc(m),
    ensures
        way_parse(s, pos, pos + way_enc(m).len()) == Some(m),
{
    let f1 = key_enc(1, WIRE_VARINT) + varint_enc(u64_of_i64(m.id) as nat);
    let f2 = key_enc(2, WIRE_LEN) + len_delim_enc(packed_enc(raws_of_uint32(m.keys)));
    let f3 = key_enc(3, WIRE_LEN) + len_delim_enc(packed_enc(raws_of_uint32(m.vals)));
    let f4 = (match m.info {
        Some(i) => key_enc(4, WIRE_LEN) + len_delim_enc(info_enc(i)),
        None => Seq::<u8>::empty(),
    });
    let f8 = key_enc(8, WIRE_LEN) + len_delim_enc(packed_enc(raws_of_sint64(m.refs)));
    let suffix = f4 + f8;
    let end = pos + way_enc(m).len();
    vstd::seq_lib::lemma_concat_associative(f1 + f2 + f3, f4, f8);
    vstd::seq_lib::lemma_concat_associative(f1 + f2, f3, suffix);
    vstd::seq_lib::lemma_concat_associative(f1, f2, f3 + suffix);
    assert(way_enc(m) == f1 + (f2 + (f3 + suffix)));
    lemma_subrange_concat(s, pos, f1, f2 + (f3 + suffix));
    let p1 = pos + f1.len();
    lemma_subrange_concat(s, p1, f2, f3 + suffix);
    let p2 = p1 + f2.len();
    lemma_subrange_concat(s, p2, f3, suffix);
    let p3 = p2 + f3.len();
    lemma_field_parse_varint(s, pos, 1, u64_of_i64(m.id));
    lemma_i64_varint_roundtrip(m.id);
    lemma_field_parse_bytes(s, p1, 2, packed_enc(raws_of_uint32(m.keys)));
    lemma_packed_enc_parse(s, p1 + key_enc(2, WIRE_LEN).len() + varint_enc(
        packed_enc(raws_of_uint32(m.keys)).len(),
    ).len(), raws_of_uint32(m.keys));
    lemma_uint32_values_roundtrip(m.keys);
    lemma_field_parse_bytes(s, p2, 3, packed_enc(raws_of_uint32(m.vals)));
    lemma_packed_enc_parse(s, p2 + key_enc(3, WIRE_LEN).len() + varint_enc(
        packed_enc(raws_of_uint32(m.vals)).len(),
    ).len(), raws_of_uint32(m.vals));
    lemma_uint32_values_roundtrip(m.vals);
    let a0 = way_init();
    let a1 = WayModel { id: m.id, ..a0 };
    let a2 = WayModel { keys: m.keys, ..a1 };
    let a3 = WayModel { vals: m.vals, ..a2 };
    assert(Seq::<u32>::empty() + m.keys =~= m.keys);
    assert(Seq::<u32>::empty() + m.vals =~= m.vals);
    assert(way_parse_rec(s, pos, end, a0) == way_parse_rec(s, p1, end, a1));
    assert(way_parse_rec(s, p1, end, a1) == way_parse_rec(s, p2, end, a2));
    assert(way_parse_rec(s, p2, end, a2) == way_parse_rec(s, p3, end, a3));
    assert(a3 =~= (WayModel { info: None, refs: Seq::<i64>::empty(), ..m }));
    lemma_way_suffix(s, p3, end, m, a3);
}

/// The last three fields of an encoded `Node`: optional metadata, then
/// the raw coordinates.
#[verifier::rlimit(100)]
proof fn lemma_node_suffix(s: Seq<u8>, p: int, end: int, m: NodeModel, acc: NodeModel)
    requires
        0 <= p,
        acc == (NodeModel { info: None, lat: 0, lon: 0, ..m }),
        ({
            let f4 = (match m.info {
                Some(i) => key_enc(4, WIRE_LEN) + len_delim_enc(info_enc(i)),
                None => Seq::<u8>::empty(),
            });
            let f8 = key_enc(8, WIRE_VARINT) + varint_enc(crate::wire::zigzag_enc(m.lat) as nat);
            let f9 = key_enc(9, WIRE_VARINT) + varint_enc(crate::wire::zigzag_enc(m.lon) as nat);
            &&& end == p + (f4 + f8 + f9).len()
            &&& end <= s.len()
            &&& s.subrange(p, end) == f4 + f8 + f9
        }),
    ensures
        node_parse_rec(s, p, end, acc) == Some(m),
{
    let f4 = (match m.info {
        Some(i) => key_enc(4, WIRE_LEN) + len_delim_enc(info_enc(i)),
        None => Seq::<u8>::empty(),
    });
    let f8 = key_enc(8, WIRE_VARINT) + varint_enc(crate::wire::zigzag_enc(m.lat) as nat);
    let f9 = key_enc(9, WIRE_VARINT) + varint_enc(crate::wire::zigzag_enc(m.lon) as nat);
    vstd::seq_lib::lemma_concat_associative(f4, f8, f9);
    lemma_subrange_concat(s, p, f4, f8 + f9);
    let p4 = p + f4.len();
    lemma_subrange_concat(s, p4, f8, f9);
    let p5 = p4 + f8.len();
    let a4 = NodeModel { info: m.info, ..acc };
    match m.info {
        Some(i) => {
            lemma_info_enc_len(i);
            lemma_field_parse_bytes(s, p, 4, info_enc(i));
            lemma_info_roundtrip(s, p + key_enc(4, WIRE_LEN).len() + varint_enc(
                info_enc(i).len(),
            ).len(), i);
            assert(node_parse_rec(s, p, end, acc) == node_parse_rec(s, p4, end, a4));
        },
        None => {
            assert(a4 =~= acc);
        },
    }
    lemma_field_parse_varint(s, p4, 8, crate::wire::zigzag_enc(m.lat));
    crate::wire::lemma_zigzag_roundtrip(m.lat);
    lemma_field_parse_varint(s, p5, 9, crate::wire::zigzag_enc(m.lon));
    crate::wire::lemma_zigzag_roundtrip(m.lon);
    let a5 = NodeModel { lat: m.lat, ..a4 };
    let a6 = NodeModel { lon: m.lon, ..a5 };
    assert(node_parse_rec(s, p4, end, a4) == node_parse_rec(s, p5, end, a5));
    assert(node_parse_rec(s, p5, end, a5) == node_parse_rec(s, end, end, a6));
    assert(node_parse_rec(s, end, end, a6) == Some(a6));
    assert(a6 =~= m);
}

/// Parsing an encoded `Node` recovers it.
#[verifier::rlimit(100)]
pub proof fn lemma_node_enc_roundtrip(s: Seq<u8>, pos: int, m: NodeModel)
    requires
        0 <= pos,
        packed_enc(raws_of_uint32(m.keys)).len() <= u64::MAX,
        packed_enc(raws_of_uint32(m.vals)).len() <= u64::MAX,
        pos + node_enc(m).len() <= s.len(),
        s.subrange(pos, pos + node_enc(m).len()) == node_enc(m),
    ensures
        node_parse(s, pos, pos + node_enc(m).len()) == Some(m),
{
    let f1 = key_enc(1, WIRE_VARINT) + varint_enc(crate::wire::zigzag_enc(m.id) as nat);
    let f2 = key_enc(2, WIRE_LEN) + len_delim_enc(packed_enc(raws_of_uint32(m.keys)));
    let f3 = key_enc(3, WIRE_LEN) + len_delim_enc(packed_enc(raws_of_uint32(m.vals)));
    let f4 = (match m.info {
        Some(i) => key_enc(4, WIRE_LEN) + len_delim_enc(info_enc(i)),
        None => Seq::<u8>::empty(),
    });
    let f8 = key_enc(8, WIRE_VARINT) + varint_enc(crate::wire::zigzag_enc(m.lat) as nat);
    let f9 = key_enc(9, WIRE_VARINT) + varint_enc(crate::wire::zigzag_enc(m.lon) as nat);
    let suffix = f4 + f8 + f9;
    let end = pos + node_enc(m).len();
    vstd::seq_lib::lemma_concat_associative(f1 + f2 + f3 + f4, f8, f9);
    vstd::seq_lib::lemma_concat_associative(f1 + f2 + f3, f4, f8 + f9);
    assert(f4 + (f8 + f9) =~= suffix);
    vstd::seq_lib::lemma_concat_associative(f1 + f2, f3, suffix);
    vstd::seq_lib::lemma_concat_associative(f1, f2, f3 + suffix);
    assert(node_enc(m) == f1 + (f2 + (f3 + suffix)));
    lemma_subrange_concat(s, pos, f1, f2 + (f3 + suffix));
    let p1 = pos + f1.len();
    lemma_subrange_concat(s, p1, f2, f3 + suffix);
    let p2 = p1 + f2.len();
    lemma_subrange_concat(s, p2, f3, suffix);
    let p3 = p2 + f3.len();
    lemma_field_parse_varint(s, pos, 1, crate::wire::zigzag_enc(m.id));
    crate::wire::lemma_zigzag_roundtrip(m.id);
    lemma_field_parse_bytes(s, p1, 2, packed_enc(raws_of_uint32(m.keys)));
    lemma_packed_enc_parse(s, p1 + key_enc(2, WIRE_LEN).len() + varint_enc(
        packed_enc(raws_of_uint32(m.keys)).len(),
    ).len(), raws_of_uint32(m.keys));
    lemma_uint32_values_roundtrip(m.keys);
    lemma_field_parse_bytes(s, p2, 3, packed_enc(raws_of_uint32(m.vals)));
    lemma_packed_enc_parse(s, p2 + key_enc(3, WIRE_LEN).len() + varint_enc(
        packed_enc(raws_of_uint32(m.vals)).len(),
    ).len(), raws_of_uint32(m.vals));
    lemma_uint32_values_roundtrip(m.vals);
    let a0 = node_init();
    let a1 = NodeModel { id: m.id, ..a0 };
    let a2 = NodeModel { keys: m.keys, ..a1 };
    let a3 = NodeModel { vals: m.vals, ..a2 };
    assert(Seq::<u32>::empty() + m.keys =~= m.keys);
    assert(Seq::<u32>::empty() + m.vals =~= m.vals);
    assert(node_parse_rec(s, pos, end, a0) == node_parse_rec(s, p1, end, a1));
    assert(node_parse_rec(s, p1, end, a1) == node_parse_rec(s, p2, end, a2));
    assert(node_parse_rec(s, p2, end, a2) == node_parse_rec(s, p3, end, a3));
    assert(a3 =~= (NodeModel { info: None, lat: 0, lon: 0, ..m }));
    lemma_node_suffix(s, p3, end, m, a3);
}

/// The last three fields of an encoded `Relation`: roles, member ids,
/// member kinds.
#[verifier::rlimit(100)]
proof fn lemma_relation_suffix(s: Seq<u8>, p: int, end: int, m: RelationModel, acc: RelationModel)
    requires
        0 <= p,
        acc == (RelationModel {
            roles_sid: Seq::<i32>::empty(),
            memids: Seq::<i64>::empty(),
            types: Seq::<i32>::empty(),
            ..m
        }),
        packed_enc(raws_of_int32(m.roles_sid)).len() <= u64::MAX,
        packed_enc(raws_of_sint64(m.memids)).len() <= u64::MAX,
        packed_enc(raws_of_int32(m.types)).len() <= u64::MAX,
        ({
            let f8 = key_enc(8, WIRE_LEN) + len_delim_enc(packed_enc(raws_of_int32(m.roles_sid)));
            let f9 = key_enc(9, WIRE_LEN) + len_delim_enc(packed_enc(raws_of_sint64(m.memids)));
            let f10 = key_enc(10, WIRE_LEN) + len_delim_enc(packed_enc(raws_of_int32(m.types)));
            &&& end == p + (f8 + f9 + f10).len()
            &&& end <= s.len()
            &&& s.subrange(p, end) == f8 + f9 + f10
        }),
    ensures
        relation_parse_rec(s, p, end, acc) == Some(m),
{
    let f8 = key_enc(8, WIRE_LEN) + len_delim_enc(packed_enc(raws_of_int32(m.roles_sid)));
    let f9 = key_enc(9, WIRE_LEN) + len_delim_enc(packed_enc(raws_of_sint64(m.memids)));
    let f10 = key_enc(10, WIRE_LEN) + len_delim_enc(packed_enc(raws_of_int32(m.types)));
    vstd::seq_lib::lemma_concat_associative(f8, f9, f10);
    lemma_subrange_concat(s, p, f8, f9 + f10);
    let p5 = p + f8.len();
    lemma_subrange_concat(s, p5, f9, f10);
    let p6 = p5 + f9.len();
    lemma_field_parse_bytes(s, p, 8, packed_enc(raws_of_int32(m.roles_sid)));
    lemma_packed_enc_parse(s, p + key_enc(8, WIRE_LEN).len() + varint_enc(
        packed_enc(raws_of_int32(m.roles_sid)).len(),
    ).len(), raws_of_int32(m.roles_sid));
    lemma_int32_values_roundtrip(m.roles_sid);
    lemma_field_parse_bytes(s, p5, 9, packed_enc(raws_of_sint64(m.memids)));
    lemma_packed_enc_parse(s, p5 + key_enc(9, WIRE_LEN).len() + varint_enc(
        packed_enc(raws_of_sint64(m.memids)).len(),
    ).len(), raws_of_sint64(m.memids));
    lemma_sint64_values_roundtrip(m.memids);
    lemma_field_parse_bytes(s, p6, 10, packed_enc(raws_of_int32(m.types)));
    lemma_packed_enc_parse(s, p6 + key_enc(10, WIRE_LEN).len() + varint_enc(
        packed_enc(raws_of_int32(m.types)).len(),
    ).len(), raws_of_int32(m.types));
    lemma_int32_values_roundtrip(m.types);
    let a5 = RelationModel { roles_sid: m.roles_sid, ..acc };
    let a6 = RelationModel { memids: m.memids, ..a5 };
    let a7 = RelationModel { types: m.types, ..a6 };
    assert(Seq::<i32>::empty() + m.roles_sid =~= m.roles_sid);
    assert(Seq::<i64>::empty() + m.memids =~= m.memids);
    assert(Seq::<i32>::empty() + m.types =~= m.types);
    assert(relation_parse_rec(s, p, end, acc) == relation_parse_rec(s, p5, end, a5));
    assert(relation_parse_rec(s, p5, end, a5) == relation_parse_rec(s, p6, end, a6));
    assert(relation_parse_rec(s, p6, end, a6) == relation_parse_rec(s, end, end, a7));
    assert(relation_parse_rec(s, end, end, a7) == Some(a7));
    assert(a7 =~= m);
}

/// The middle fields of an encoded `Relation`: values and optional
/// metadata, then the suffix.
#[verifier::rlimit(100)]
proof fn lemma_relation_mid(s: Seq<u8>, p: int, end: int, m: RelationModel, acc: RelationModel)
    requires
        0 <= p,
        acc == (RelationModel {
            vals: Seq::<u32>::empty(),
            info: None,
            roles_sid: Seq::<i32>::empty(),
            memids: Seq::<i64>::empty(),
            types: Seq::<i32>::empty(),
            ..m
        }),
        packed_enc(raws_of_uint32(m.vals)).len() <= u64::MAX,
        packed_enc(raws_of_int32(m.roles_sid)).len() <= u64::MAX,
        packed_enc(raws_of_sint64(m.memids)).len() <= u64::MAX,
        packed_enc(raws_of_int32(m.types)).len() <= u64::MAX,
        ({
            let f3 = key_enc(3, WIRE_LEN) + len_delim_enc(packed_enc(raws_of_uint32(m.vals)));
            let f4 = (match m.info {
                Some(i) => key_enc(4, WIRE_LEN) + len_delim_enc(info_enc(i)),
                None => Seq::<u8>::empty(),
            });
            let f8 = key_enc(8, WIRE_LEN) + len_delim_enc(packed_enc(raws_of_int32(m.roles_sid)));
            let f9 = key_enc(9, WIRE_LEN) + len_delim_enc(packed_enc(raws_of_sint64(m.memids)));
            let f10 = key_enc(10, WIRE_LEN) + len_delim_enc(packed_enc(raws_of_int32(m.types)));
            &&& end == p + (f3 + f4 + (f8 + f9 + f10)).len()
            &&& end <= s.len()
            &&& s.subrange(p, end) == f3 + f4 + (f8 + f9 + f10)
        }),
    ensures
        relation_parse_rec(s, p, end, acc) == Some(m),
{
    let f3 = key_enc(3, WIRE_LEN) + len_delim_enc(packed_enc(raws_of_uint32(m.vals)));
    let f4 = (match m.info {
        Some(i) => key_enc(4, WIRE_LEN) + len_delim_enc(info_enc(i)),
        None => Seq::<u8>::empty(),
    });
    let f8 = key_enc(8, WIRE_LEN) + len_delim_enc(packed_enc(raws_of_int32(m.roles_sid)));
    let f9 = key_enc(9, WIRE_LEN) + len_delim_enc(packed_enc(raws_of_sint64(m.memids)));
    let f10 = key_enc(10, WIRE_LEN) + len_delim_enc(packed_enc(raws_of_int32(m.types)));
    let suffix = f8 + f9 + f10;
    vstd::seq_lib::lemma_concat_associative(f3, f4, suffix);
    lemma_subrange_concat(s, p, f3, f4 + suffix);
    let p3 = p + f3.len();
    lemma_subrange_concat(s, p3, f4, suffix);
    let p4 = p3 + f4.len();
    lemma_field_parse_bytes(s, p, 3, packed_enc(raws_of_uint32(m.vals)));
    lemma_packed_enc_parse(s, p + key_enc(3, WIRE_LEN).len() + varint_enc(
        packed_enc(raws_of_uint32(m.vals)).len(),
    ).len(), raws_of_uint32(m.vals));
    lemma_uint32_values_roundtrip(m.vals);
    let a3 = RelationModel { vals: m.vals, ..acc };
    assert(Seq::<u32>::empty() + m.vals =~= m.vals);
    assert(relation_parse_rec(s, p, end, acc) == relation_parse_rec(s, p3, end, a3));
    let a4 = RelationModel { info: m.info, ..a3 };
    match m.info {
        Some(i) => {
            lemma_info_enc_len(i);
            lemma_field_parse_bytes(s, p3, 4, info_enc(i));
            lemma_info_roundtrip(s, p3 + key_enc(4, WIRE_LEN).len() + varint_enc(
                info_enc(i).len(),
            ).len(), i);
            assert(relation_parse_rec(s, p3, end, a3) == relation_parse_rec(s, p4, end, a4));
        },
        None => {
            assert(a4 =~= a3);
        },
    }
    assert(a4 =~= (RelationModel {
        roles_sid: Seq::<i32>::empty(),
        memids: Seq::<i64>::empty(),
        types: Seq::<i32>::empty(),
        ..m
    }));
    lemma_relation_suffix(s, p4, end, m, a4);
}

/// Parsing an encoded `Relation` recovers it.
#[verifier::rlimit(100)]
pub proof fn lemma_relation_enc_roundtrip(s: Seq<u8>, pos: int, m: RelationModel)
    requires
        0 <= pos,
        packed_enc(raws_of_uint32(m.keys)).len() <= u64::MAX,
        packed_enc(raws_of_uint32(m.vals)).len() <= u64::MAX,
        packed_enc(raws_of_int32(m.roles_sid)).len() <= u64::MAX,
        packed_enc(raws_of_sint64(m.memids)).len() <= u64::MAX,
        packed_enc(raws_of_int32(m.types)).len() <= u64::MAX,
        pos + relation_enc(m).len() <= s.len(),
        s.subrange(pos, pos + relation_enc(m).len()) == relation_enc(m),
    ensures
        relation_parse(s, pos, pos + relation_enc(m).len()) == Some(m),
{
    let f1 = key_enc(1, WIRE_VARINT) + varint_enc(u64_of_i64(m.id) as nat);
    let f2 = key_enc(2, WIRE_LEN) + len_delim_enc(packed_enc(raws_of_uint32(m.keys)));
    let f3 = key_enc(3, WIRE_LEN) + len_delim_enc(packed_enc(raws_of_uint32(m.vals)));
    let f4 = (match m.info {
        Some(i) => key_enc(4, WIRE_LEN) + len_delim_enc(info_enc(i)),
        None => Seq::<u8>::empty(),
    });
    let f8 = key_enc(8, WIRE_LEN) + len_delim_enc(packed_enc(raws_of_int32(m.roles_sid)));
    let f9 = key_enc(9, WIRE_LEN) + len_delim_enc(packed_enc(raws_of_sint64(m.memids)));
    let f10 = key_enc(10, WIRE_LEN) + len_delim_enc(packed_enc(raws_of_int32(m.types)));
    let suffix = f8 + f9 + f10;
    let mid = f3 + f4 + suffix;
    let end = pos + relation_enc(m).len();
    vstd::seq_lib::lemma_concat_associative(f1 + f2 + f3 + f4, f8, f9);
    vstd::seq_lib::lemma_concat_associative(f1 + f2 + f3 + f4, f8 + f9, f10);
    vstd::seq_lib::lemma_concat_associative(f1 + f2 + f3, f4, suffix);
    assert(f3 + (f4 + suffix) =~= mid);
    vstd::seq_lib::lemma_concat_associative(f1 + f2, f3, f4 + suffix);
    vstd::seq_lib::lemma_concat_associative(f1, f2, mid);
    assert(relation_enc(m) == f1 + (f2 + mid));
    lemma_subrange_concat(s, pos, f1, f2 + mid);
    let p1 = pos + f1.len();
    lemma_subrange_concat(s, p1, f2, mid);
    let p2 = p1 + f2.len();
    lemma_field_parse_varint(s, pos, 1, u64_of_i64(m.id));
    lemma_i64_varint_roundtrip(m.id);
    lemma_field_parse_bytes(s, p1, 2, packed_enc(raws_of_uint32(m.keys)));
    lemma_packed_enc_parse(s, p1 + key_enc(2, WIRE_LEN).len() + varint_enc(
        packed_enc(raws_of_uint32(m.keys)).len(),
    ).len(), raws_of_uint32(m.keys));
    lemma_uint32_values_roundtrip(m.keys);
    let a0 = relation_init();
    let a1 = RelationModel { id: m.id, ..a0 };
    let a2 = RelationModel { keys: m.keys, ..a1 };
    assert(Seq::<u32>::empty() + m.keys =~= m.keys);
    assert(relation_parse_rec(s, pos, end, a0) == relation_parse_rec(s, p1, end, a1));
    assert(relation_parse_rec(s, p1, end, a1) == relation_parse_rec(s, p2, end, a2));
    assert(a2 =~= (RelationModel {
        vals: Seq::<u32>::empty(),
        info: None,
        roles_sid: Seq::<i32>::empty(),
        memids: Seq::<i64>::empty(),
        types: Seq::<i32>::empty(),
        ..m
    }));
    lemma_relation_mid(s, p2, end, m, a2);
}

/// The last three fields of an encoded `DenseInfo`: uids, user ids,
/// visibility.
#[verifier::rlimit(100)]
proof fn lemma_dense_info_suffix(
    s: Seq<u8>,
    p: int,
    end: int,
    m: DenseInfoModel,
    acc: DenseInfoModel,
)
    requires
        0 <= p,
        acc == (DenseInfoModel {
            uid: Seq::<i32>::empty(),
            user_sid: Seq::<i32>::empty(),
            visible: Seq::<bool>::empty(),
            ..m
        }),
        packed_enc(raws_of_sint32(m.uid)).len() <= u64::MAX,
        packed_enc(raws_of_sint32(m.user_sid)).len() <= u64::MAX,
        packed_enc(raws_of_bool(m.visible)).len() <= u64::MAX,
        ({
            let f4 = key_enc(4, WIRE_LEN) + len_delim_enc(packed_enc(raws_of_sint32(m.uid)));
            let f5 = key_enc(5, WIRE_LEN) + len_delim_enc(packed_enc(raws_of_sint32(m.user_sid)));
            let f6 = key_enc(6, WIRE_LEN) + len_delim_enc(packed_enc(raws_of_bool(m.visible)));
            &&& end == p + (f4 + f5 + f6).len()
            &&& end <= s.len()
            &&& s.subrange(p, end) == f4 + f5 + f6
        }),
    ensures
        dense_info_parse_rec(s, p, end, acc) == Some(m),
{
    let f4 = key_enc(4, WIRE_LEN) + len_delim_enc(packed_enc(raws_of_sint32(m.uid)));
    let f5 = key_enc(5, WIRE_LEN) + len_delim_enc(packed_enc(raws_of_sint32(m.user_sid)));
    let f6 = key_enc(6, WIRE_LEN) + len_delim_enc(packed_enc(raws_of_bool(m.visible)));
    vstd::seq_lib::lemma_concat_associative(f4, f5, f6);
    lemma_subrange_concat(s, p, f4, f5 + f6);
    let p4 = p + f4.len();
    lemma_subrange_concat(s, p4, f5, f6);
    let p5 = p4 + f5.len();
    lemma_field_parse_bytes(s, p, 4, packed_enc(raws_of_sint32(m.uid)));
    lemma_packed_enc_parse(s, p + key_enc(4, WIRE_LEN).len() + varint_enc(
        packed_enc(raws_of_sint32(m.uid)).len(),
    ).len(), raws_of_sint32(m.uid));
    lemma_sint32_values_roundtrip(m.uid);
    lemma_field_parse_bytes(s, p4, 5, packed_enc(raws_of_sint32(m.user_sid)));
    lemma_packed_enc_parse(s, p4 + key_enc(5, WIRE_LEN).len() + varint_enc(
        packed_enc(raws_of_sint32(m.user_sid)).len(),
    ).len(), raws_of_sint32(m.user_sid));
    lemma_sint32_values_roundtrip(m.user_sid);
    lemma_field_parse_bytes(s, p5, 6, packed_enc(raws_of_bool(m.visible)));
    lemma_packed_enc_parse(s, p5 + key_enc(6, WIRE_LEN).len() + varint_enc(
        packed_enc(raws_of_bool(m.visible)).len(),
    ).len(), raws_of_bool(m.visible));
    lemma_bool_values_roundtrip(m.visible);
    let a4 = DenseInfoModel { uid: m.uid, ..acc };
    let a5 = DenseInfoModel { user_sid: m.user_sid, ..a4 };
    let a6 = DenseInfoModel { visible: m.visible, ..a5 };
    assert(Seq::<i32>::empty() + m.uid =~= m.uid);
    assert(Seq::<i32>::empty() + m.user_sid =~= m.user_sid);
    assert(Seq::<bool>::empty() + m.visible =~= m.visible);
    assert(dense_info_parse_rec(s, p, end, acc) == dense_info_parse_rec(s, p4, end, a4));
    assert(dense_info_parse_rec(s, p4, end, a4) == dense_info_parse_rec(s, p5, end, a5));
    assert(dense_info_parse_rec(s, p5, end, a5) == dense_info_parse_rec(s, end, end, a6));
    assert(dense_info_parse_rec(s, end, end, a6) == Some(a6));
    assert(a6 =~= m);
}

/// Parsing an encoded `DenseInfo` recovers it.
#[verifier::rlimit(100)]
pub proof fn lemma_dense_info_enc_roundtrip(s: Seq<u8>, pos: int, m: DenseInfoModel)
    requires
        0 <= pos,
        packed_enc(raws_of_int32(m.version)).len() <= u64::MAX,
        packed_enc(raws_of_sint64(m.timestamp)).len() <= u64::MAX,
        packed_enc(raws_of_sint64(m.changeset)).len() <= u64::MAX,
        packed_enc(raws_of_sint32(m.uid)).len() <= u64::MAX,
        packed_enc(raws_of_sint32(m.user_sid)).len() <= u64::MAX,
        packed_enc(raws_of_bool(m.visible)).len() <= u64::MAX,
        pos + dense_info_enc(m).len() <= s.len(),
        s.subrange(pos, pos + dense_info_enc(m).len()) == dense_info_enc(m),
    ensures
        dense_info_parse(s, pos, pos + dense_info_enc(m).len()) == Some(m),
{
    let f1 = key_enc(1, WIRE_LEN) + len_delim_enc(packed_enc(raws_of_int32(m.version)));
    let f2 = key_enc(2, WIRE_LEN) + len_delim_enc(packed_enc(raws_of_sint64(m.timestamp)));
    let f3 = key_enc(3, WIRE_LEN) + len_delim_enc(packed_enc(raws_of_sint64(m.changeset)));
    let f4 = key_enc(4, WIRE_LEN) + len_delim_enc(packed_enc(raws_of_sint32(m.uid)));
    let f5 = key_enc(5, WIRE_LEN) + len_delim_enc(packed_enc(raws_of_sint32(m.user_sid)));
    let f6 = key_enc(6, WIRE_LEN) + len_delim_enc(packed_enc(raws_of_bool(m.visible)));
    let suffix = f4 + f5 + f6;
    let end = pos + dense_info_enc(m).len();
    vstd::seq_lib::lemma_concat_associative(f1 + f2 + f3 + f4, f5, f6);
    vstd::seq_lib::lemma_concat_associative(f1 + f2 + f3, f4, f5 + f6);
    assert(f4 + (f5 + f6) =~= suffix);
    vstd::seq_lib::lemma_concat_associative(f1 + f2, f3, suffix);
    vstd::seq_lib::lemma_concat_associative(f1, f2, f3 + suffix);
    assert(dense_info_enc(m) == f1 + (f2 + (f3 + suffix)));
    lemma_subrange_concat(s, pos, f1, f2 + (f3 + suffix));
    let p1 = pos + f1.len();
    lemma_subrange_concat(s, p1, f2, f3 + suffix);
    let p2 = p1 + f2.len();
    lemma_subrange_concat(s, p2, f3, suffix);
    let p3 = p2 + f3.len();
    lemma_field_parse_bytes(s, pos, 1, packed_enc(raws_of_int32(m.version)));
    lemma_packed_enc_parse(s, pos + key_enc(1, WIRE_LEN).len() + varint_enc(
        packed_enc(raws_of_int32(m.version)).len(),
    ).len(), raws_of_int32(m.version));
    lemma_int32_values_roundtrip(m.version);
    lemma_field_parse_bytes(s, p1, 2, packed_enc(raws_of_sint64(m.timestamp)));
    lemma_packed_enc_parse(s, p1 + key_enc(2, WIRE_LEN).len() + varint_enc(
        packed_enc(raws_of_sint64(m.timestamp)).len(),
    ).len(), raws_of_sint64(m.timestamp));
    lemma_sint64_values_roundtrip(m.timestamp);
    lemma_field_parse_bytes(s, p2, 3, packed_enc(raws_of_sint64(m.changeset)));
    lemma_packed_enc_parse(s, p2 + key_enc(3, WIRE_LEN).len() + varint_enc(
        packed_enc(raws_of_sint64(m.changeset)).len(),
    ).len(), raws_of_sint64(m.changeset));
    lemma_sint64_values_roundtrip(m.changeset);
    let a0 = dense_info_init();
    let a1 = DenseInfoModel { version: m.version, ..a0 };
    let a2 = DenseInfoModel { timestamp: m.timestamp, ..a1 };
    let a3 = DenseInfoModel { changeset: m.changeset, ..a2 };
    assert(Seq::<i32>::empty() + m.version =~= m.version);
    assert(Seq::<i64>::empty() + m.timestamp =~= m.timestamp);
    assert(Seq::<i64>::empty() + m.changeset =~= m.changeset);
    assert(dense_info_parse_rec(s, pos, end, a0) == dense_info_parse_rec(s, p1, end, a1));
    assert(dense_info_parse_rec(s, p1, end, a1) == dense_info_parse_rec(s, p2, end, a2));
    assert(dense_info_parse_rec(s, p2, end, a2) == dense_info_parse_rec(s, p3, end, a3));
    assert(a3 =~= (DenseInfoModel {
        uid: Seq::<i32>::empty(),
        user_sid: Seq::<i32>::empty(),
        visible: Seq::<bool>::empty(),
        ..m
    }));
    lemma_dense_info_suffix(s, p3, end, m, a3);
}

/// The last three fields of an encoded `DenseNodes`: latitudes,
/// longitudes, the packed tag stream.
#[verifier::rlimit(100)]
proof fn lemma_dense_suffix(s: Seq<u8>, p: int, end: int, m: DenseNodesModel, acc: DenseNodesModel)
    requires
        0 <= p,
        acc == (DenseNodesModel {
            lat: Seq::<i64>::empty(),
            lon: Seq::<i64>::empty(),
            keys_vals: Seq::<i32>::empty(),
            ..m
        }),
        packed_enc(raws_of_sint64(m.lat)).len() <= u64::MAX,
        packed_enc(raws_of_sint64(m.lon)).len() <= u64::MAX,
        packed_enc(raws_of_int32(m.keys_vals)).len() <= u64::MAX,
        ({
            let f8 = key_enc(8, WIRE_LEN) + len_delim_enc(packed_enc(raws_of_sint64(m.lat)));
            let f9 = key_enc(9, WIRE_LEN) + len_delim_enc(packed_enc(raws_of_sint64(m.lon)));
            let f10 = key_enc(10, WIRE_LEN) + len_delim_enc(packed_enc(raws_of_int32(m.keys_vals)));
            &&& end == p + (f8 + f9 + f10).len()
            &&& end <= s.len()
            &&& s.subrange(p, end) == f8 + f9 + f10
        }),
    ensures
        dense_parse_rec(s, p, end, acc) == Some(m),
{
    let f8 = key_enc(8, WIRE_LEN) + len_delim_enc(packed_enc(raws_of_sint64(m.lat)));
    let f9 = key_enc(9, WIRE_LEN) + len_delim_enc(packed_enc(raws_of_sint64(m.lon)));
    let f10 = key_enc(10, WIRE_LEN) + len_delim_enc(packed_enc(raws_of_int32(m.keys_vals)));
    vstd::seq_lib::lemma_concat_associative(f8, f9, f10);
    lemma_subrange_concat(s, p, f8, f9 + f10);
    let p3 = p + f8.len();
    lemma_subrange_concat(s, p3, f9, f10);
    let p4 = p3 + f9.len();
    lemma_field_parse_bytes(s, p, 8, packed_enc(raws_of_sint64(m.lat)));
    lemma_packed_enc_parse(s, p + key_enc(8, WIRE_LEN).len() + varint_enc(
        packed_enc(raws_of_sint64(m.lat)).len(),
    ).len(), raws_of_sint64(m.lat));
    lemma_sint64_values_roundtrip(m.lat);
    lemma_field_parse_bytes(s, p3, 9, packed_enc(raws_of_sint64(m.lon)));
    lemma_packed_enc_parse(s, p3 + key_enc(9, WIRE_LEN).len() + varint_enc(
        packed_enc(raws_of_sint64(m.lon)).len(),
    ).len(), raws_of_sint64(m.lon));
    lemma_sint64_values_roundtrip(m.lon);
    lemma_field_parse_bytes(s, p4, 10, packed_enc(raws_of_int32(m.keys_vals)));
    lemma_packed_enc_parse(s, p4 + key_enc(10, WIRE_LEN).len() + varint_enc(
        packed_enc(raws_of_int32(m.keys_vals)).len(),
    ).len(), raws_of_int32(m.keys_vals));
    lemma_int32_values_roundtrip(m.keys_vals);
    let a3 = DenseNodesModel { lat: m.lat, ..acc };
    let a4 = DenseNodesModel { lon: m.lon, ..a3 };
    let a5 = DenseNodesModel { keys_vals: m.keys_vals, ..a4 };
    assert(Seq::<i64>::empty() + m.lat =~= m.lat);
    assert(Seq::<i64>::empty() + m.lon =~= m.lon);
    assert(Seq::<i32>::empty() + m.keys_vals =~= m.keys_vals);
    assert(dense_parse_rec(s, p, end, acc) == dense_parse_rec(s, p3, end, a3));
    assert(dense_parse_rec(s, p3, end, a3) == dense_parse_rec(s, p4, end, a4));
    assert(dense_parse_rec(s, p4, end, a4) == dense_parse_rec(s, end, end, a5));
    assert(dense_parse_rec(s, end, end, a5) == Some(a5));
    assert(a5 =~= m);
}

/// Parsing an encoded `DenseNodes` recovers it.
#[verifier::rlimit(100)]
pub proof fn lemma_dense_enc_roundtrip(s: Seq<u8>, pos: int, m: DenseNodesModel)
    requires
        0 <= pos,
        packed_enc(raws_of_sint64(m.id)).len() <= u64::MAX,
        packed_enc(raws_of_sint64(m.lat)).len() <= u64::MAX,
        packed_enc(raws_of_sint64(m.lon)).len() <= u64::MAX,
        packed_enc(raws_of_int32(m.keys_vals)).len() <= u64::MAX,
        (m.denseinfo matches Some(di) ==> {
            &&& dense_info_enc(di).len() <= u64::MAX
            &&& packed_enc(raws_of_int32(di.version)).len() <= u64::MAX
            &&& packed_enc(raws_of_sint64(di.timestamp)).len() <= u64::MAX
            &&& packed_enc(raws_of_sint64(di.changeset)).len() <= u64::MAX
            &&& packed_enc(raws_of_sint32(di.uid)).len() <= u64::MAX
            &&& packed_enc(raws_of_sint32(di.user_sid)).len() <= u64::MAX
            &&& packed_enc(raws_of_bool(di.visible)).len() <= u64::MAX
        }),
        pos + dense_enc(m).len() <= s.len(),
        s.subrange(pos, pos + dense_enc(m).len()) == dense_enc(m),
    ensures
        dense_parse(s, pos, pos + dense_enc(m).len()) == Some(m),
{
    let f1 = key_enc(1, WIRE_LEN) + len_delim_enc(packed_enc(raws_of_sint64(m.id)));
    let f5 = (match m.denseinfo {
        Some(di) => key_enc(5, WIRE_LEN) + len_delim_enc(dense_info_enc(di)),
        None => Seq::<u8>::empty(),
    });
    let f8 = key_enc(8, WIRE_LEN) + len_delim_enc(packed_enc(raws_of_sint64(m.lat)));
    let f9 = key_enc(9, WIRE_LEN) + len_delim_enc(packed_enc(raws_of_sint64(m.lon)));
    let f10 = key_enc(10, WIRE_LEN) + len_delim_enc(packed_enc(raws_of_int32(m.keys_vals)));
    let suffix = f8 + f9 + f10;
    let end = pos + dense_enc(m).len();
    vstd::seq_lib::lemma_concat_associative(f1 + f5, f8, f9);
    vstd::seq_lib::lemma_concat_associative(f1 + f5, f8 + f9, f10);
    vstd::seq_lib::lemma_concat_associative(f1, f5, suffix);
    assert(dense_enc(m) == f1 + (f5 + suffix));
    lemma_subrange_concat(s, pos, f1, f5 + suffix);
    let p1 = pos + f1.len();
    lemma_subrange_concat(s, p1, f5, suffix);
    let p2 = p1 + f5.len();
    lemma_field_parse_bytes(s, pos, 1, packed_enc(raws_of_sint64(m.id)));
    lemma_packed_enc_parse(s, pos + key_enc(1, WIRE_LEN).len() + varint_enc(
        packed_enc(raws_of_sint64(m.id)).len(),
    ).len(), raws_of_sint64(m.id));
    lemma_sint64_values_roundtrip(m.id);
    match m.denseinfo {
        Some(di) => {
            lemma_field_parse_bytes(s, p1, 5, dense_info_enc(di));
            lemma_dense_info_enc_roundtrip(s, p1 + key_enc(5, WIRE_LEN).len() + varint_enc(
                dense_info_enc(di).len(),
            ).len(), di);
        },
        None => {},
    }
    let a0 = dense_init();
    let a1 = DenseNodesModel { id: m.id, ..a0 };
    let a2 = DenseNodesModel { denseinfo: m.denseinfo, ..a1 };
    assert(Seq::<i64>::empty() + m.id =~= m.id);
    assert(dense_parse_rec(s, pos, end, a0) == dense_parse_rec(s, p1, end, a1));
    assert(dense_parse_rec(s, p1, end, a1) == dense_parse_rec(s, p2, end, a2));
    assert(a2 =~= (DenseNodesModel {
        lat: Seq::<i64>::empty(),
        lon: Seq::<i64>::empty(),
        keys_vals: Seq::<i32>::empty(),
        ..m
    }));
    lemma_dense_suffix(s, p2, end, m, a2);
}

/// The length bounds under which an encoded `Node` is parseable.
pub open spec fn node_enc_fits(n: NodeModel) -> bool {
    &&& node_enc(n).len() <= u64::MAX
    &&& packed_enc(raws_of_uint32(n.keys)).len() <= u64::MAX
    &&& packed_enc(raws_of_uint32(n.vals)).len() <= u64::MAX
}

/// The length bounds under which an encoded `Way` is parseable.
pub open spec fn way_enc_fits(w: WayModel) -> bool {
    &&& way_enc(w).len() <= u64::MAX
    &&& packed_enc(raws_of_uint32(w.keys)).len() <= u64::MAX
    &&& packed_enc(raws_of_uint32(w.vals)).len() <= u64::MAX
    &&& packed_enc(raws_of_sint64(w.refs)).len() <= u64::MAX
}

/// The length bounds under which an encoded `Relation` is parseable.
pub open spec fn relation_enc_fits(r: RelationModel) -> bool {
    &&& relation_enc(r).len() <= u64::MAX
    &&& packed_enc(raws_of_uint32(r.keys)).len() <= u64::MAX
    &&& packed_enc(raws_of_uint32(r.vals)).len() <= u64::MAX
    &&& packed_enc(raws_of_int32(r.roles_sid)).len() <= u64::MAX
    &&& packed_enc(raws_of_sint64(r.memids)).len() <= u64::MAX
    &&& packed_enc(raws_of_int32(r.types)).len() <= u64::MAX
}

/// The length bounds under which an encoded `DenseNodes` is parseable.
pub open spec fn dense_enc_fits(d: DenseNodesModel) -> bool {
    &&& dense_enc(d).len() <= u64::MAX
    &&& packed_enc(raws_of_sint64(d.id)).len() <= u64::MAX
    &&& packed_enc(raws_of_sint64(d.lat)).len() <= u64::MAX
    &&& packed_enc(raws_of_sint64(d.lon)).len() <= u64::MAX
    &&& packed_enc(raws_of_int32(d.keys_vals)).len() <= u64::MAX
    &&& (d.denseinfo matches Some(di) ==> {
        &&& dense_info_enc(di).len() <= u64::MAX
        &&& packed_enc(raws_of_int32(di.version)).len() <= u64::MAX
        &&& packed_enc(raws_of_sint64(di.timestamp)).len() <= u64::MAX
        &&& packed_enc(raws_of_sint64(di.changeset)).len() <= u64::MAX
        &&& packed_enc(raws_of_sint32(di.uid)).len() <= u64::MAX
        &&& packed_enc(raws_of_sint32(di.user_sid)).len() <= u64::MAX
        &&& packed_enc(raws_of_bool(di.visible)).len() <= u64::MAX
    })
}

/// The length bounds under which an encoded `PrimitiveGroup` is
/// parseable.
pub open spec fn group_enc_fits(g: PrimitiveGroupModel) -> bool {
    &&& group_enc(g).len() <= u64::MAX
    &&& (forall|i: int| 0 <= i < g.nodes.len() ==> node_enc_fits(#[trigger] g.nodes[i]))
    &&& (g.dense matches Some(d) ==> dense_enc_fits(d))
    &&& (forall|i: int| 0 <= i < g.ways.len() ==> way_enc_fits(#[trigger] g.ways[i]))
    &&& (forall|i: int|
        0 <= i < g.relations.len() ==> relation_enc_fits(#[trigger] g.relations[i]))
}

/// Consuming a run of encoded `Node` fields appends those nodes.
#[verifier::rlimit(100)]
proof fn lemma_group_nodes_segment(
    s: Seq<u8>,
    pos: int,
    end: int,
    ns: Seq<NodeModel>,
    acc: PrimitiveGroupModel,
)
    requires
        0 <= pos,
        forall|i: int| 0 <= i < ns.len() ==> node_enc_fits(#[trigger] ns[i]),
        pos + nodes_enc(ns).len() <= end <= s.len(),
        s.subrange(pos, pos + nodes_enc(ns).len()) == nodes_enc(ns),
    ensures
        group_parse_rec(s, pos, end, acc) == group_parse_rec(
            s,
            pos + nodes_enc(ns).len(),
            end,
            PrimitiveGroupModel { nodes: acc.nodes + ns, ..acc },
        ),
    decreases ns.len(),
{
    if ns.len() == 0 {
        assert(PrimitiveGroupModel { nodes: acc.nodes + ns, ..acc } =~= acc);
        assert(acc.nodes + ns =~= acc.nodes);
    } else {
        let f0 = key_enc(1, WIRE_LEN) + len_delim_enc(node_enc(ns[0]));
        let rest = nodes_enc(ns.drop_first());
        assert(nodes_enc(ns) == f0 + rest);
        lemma_subrange_concat(s, pos, f0, rest);
        lemma_field_parse_bytes(s, pos, 1, node_enc(ns[0]));
        let p1 = pos + f0.len();
        lemma_node_enc_roundtrip(s, pos + key_enc(1, WIRE_LEN).len() + varint_enc(
            node_enc(ns[0]).len(),
        ).len(), ns[0]);
        let acc2 = PrimitiveGroupModel { nodes: acc.nodes.push(ns[0]), ..acc };
        assert(group_parse_rec(s, pos, end, acc) == group_parse_rec(s, p1, end, acc2));
        assert forall|i: int| 0 <= i < ns.drop_first().len() implies node_enc_fits(
            #[trigger] ns.drop_first()[i],
        ) by {
            assert(ns.drop_first()[i] == ns[i + 1]);
        }
        lemma_group_nodes_segment(s, p1, end, ns.drop_first(), acc2);
        assert(acc.nodes.push(ns[0]) + ns.drop_first() =~= acc.nodes + ns);
        assert(PrimitiveGroupModel { nodes: acc.nodes.push(ns[0]) + ns.drop_first(), ..acc2 }
            =~= PrimitiveGroupModel { nodes: acc.nodes + ns, ..acc });
    }
}

/// Consuming a run of encoded `Way` fields appends those ways.
#[verifier::rlimit(100)]
proof fn lemma_group_ways_segment(
    s: Seq<u8>,
    pos: int,
    end: int,
    ws: Seq<WayModel>,
    acc: PrimitiveGroupModel,
)
    requires
        0 <= pos,
        forall|i: int| 0 <= i < ws.len() ==> way_enc_fits(#[trigger] ws[i]),
        pos + ways_enc(ws).len() <= end <= s.len(),
        s.subrange(pos, pos + ways_enc(ws).len()) == ways_enc(ws),
    ensures
        group_parse_rec(s, pos, end, acc) == group_parse_rec(
            s,
            pos + ways_enc(ws).len(),
            end,
            PrimitiveGroupModel { ways: acc.ways + ws, ..acc },
        ),
    decreases ws.len(),
{
    if ws.len() == 0 {
        assert(PrimitiveGroupModel { ways: acc.ways + ws, ..acc } =~= acc);
        assert(acc.ways + ws =~= acc.ways);
    } else {
        let f0 = key_enc(3, WIRE_LEN) + len_delim_enc(way_enc(ws[0]));
        let rest = ways_enc(ws.drop_first());
        assert(ways_enc(ws) == f0 + rest);
        lemma_subrange_concat(s, pos, f0, rest);
        lemma_field_parse_bytes(s, pos, 3, way_enc(ws[0]));
        let p1 = pos + f0.len();
        lemma_way_enc_roundtrip(s, pos + key_enc(3, WIRE_LEN).len() + varint_enc(
            way_enc(ws[0]).len(),
        ).len(), ws[0]);
        let acc2 = PrimitiveGroupModel { ways: acc.ways.push(ws[0]), ..acc };
        assert(group_parse_rec(s, pos, end, acc) == group_parse_rec(s, p1, end, acc2));
        assert forall|i: int| 0 <= i < ws.drop_first().len() implies way_enc_fits(
            #[trigger] ws.drop_first()[i],
        ) by {
            assert(ws.drop_first()[i] == ws[i + 1]);
        }
        lemma_group_ways_segment(s, p1, end, ws.drop_first(), acc2);
        assert(acc.ways.push(ws[0]) + ws.drop_first() =~= acc.ways + ws);
        assert(PrimitiveGroupModel { ways: acc.ways.push(ws[0]) + ws.drop_first(), ..acc2 }
            =~= PrimitiveGroupModel { ways: acc.ways + ws, ..acc });
    }
}

/// Consuming a run of encoded `Relation` fields appends those relations.
#[verifier::rlimit(100)]
proof fn lemma_group_relations_segment(
    s: Seq<u8>,
    pos: int,
    end: int,
    rs: Seq<RelationModel>,
    acc: PrimitiveGroupModel,
)
    requires
        0 <= pos,
        forall|i: int| 0 <= i < rs.len() ==> relation_enc_fits(#[trigger] rs[i]),
        pos + relations_enc(rs).len() <= end <= s.len(),
        s.subrange(pos, pos + relations_enc(rs).len()) == relations_enc(rs),
    ensures
        group_parse_rec(s, pos, end, acc) == group_parse_rec(
            s,
            pos + relations_enc(rs).len(),
            end,
            PrimitiveGroupModel { relations: acc.relations + rs, ..acc },
        ),
    decreases rs.len(),
{
    if rs.len() == 0 {
        assert(PrimitiveGroupModel { relations: acc.relations + rs, ..acc } =~= acc);
        assert(acc.relations + rs =~= acc.relations);
    } else {
        let f0 = key_enc(4, WIRE_LEN) + len_delim_enc(relation_enc(rs[0]));
        let rest = relations_enc(rs.drop_first());
        assert(relations_enc(rs) == f0 + rest);
        lemma_subrange_concat(s, pos, f0, rest);
        lemma_field_parse_bytes(s, pos, 4, relation_enc(rs[0]));
        let p1 = pos + f0.len();
        lemma_relation_enc_roundtrip(s, pos + key_enc(4, WIRE_LEN).len() + varint_enc(
            relation_enc(rs[0]).len(),
        ).len(), rs[0]);
        let acc2 = PrimitiveGroupModel { relations: acc.relations.push(rs[0]), ..acc };
        assert(group_parse_rec(s, pos, end, acc) == group_parse_rec(s, p1, end, acc2));
        assert forall|i: int| 0 <= i < rs.drop_first().len() implies relation_enc_fits(
            #[trigger] rs.drop_first()[i],
        ) by {
            assert(rs.drop_first()[i] == rs[i + 1]);
        }
        lemma_group_relations_segment(s, p1, end, rs.drop_first(), acc2);
        assert(acc.relations.push(rs[0]) + rs.drop_first() =~= acc.relations + rs);
        assert(PrimitiveGroupModel {
            relations: acc.relations.push(rs[0]) + rs.drop_first(),
            ..acc2
        } =~= PrimitiveGroupModel { relations: acc.relations + rs, ..acc });
    }
}

/// Parsing an encoded `PrimitiveGroup` recovers it.
#[verifier::rlimit(100)]
pub proof fn lemma_group_enc_roundtrip(s: Seq<u8>, pos: int, g: PrimitiveGroupModel)
    requires
        0 <= pos,
        group_enc_fits(g),
        pos + group_enc(g).len() <= s.len(),
        s.subrange(pos, pos + group_enc(g).len()) == group_enc(g),
    ensures
        group_parse(s, pos, pos + group_enc(g).len()) == Some(g),
{
    let fn_ = nodes_enc(g.nodes);
    let fd = (match g.dense {
        Some(d) => key_enc(2, WIRE_LEN) + len_delim_enc(dense_enc(d)),
        None => Seq::<u8>::empty(),
    });
    let fw = ways_enc(g.ways);
    let fr = relations_enc(g.relations);
    let end = pos + group_enc(g).len();
    vstd::seq_lib::lemma_concat_associative(fn_ + fd, fw, fr);
    vstd::seq_lib::lemma_concat_associative(fn_, fd, fw + fr);
    assert(group_enc(g) == fn_ + (fd + (fw + fr)));
    lemma_subrange_concat(s, pos, fn_, fd + (fw + fr));
    let p1 = pos + fn_.len();
    lemma_subrange_concat(s, p1, fd, fw + fr);
    let p2 = p1 + fd.len();
    lemma_subrange_concat(s, p2, fw, fr);
    let p3 = p2 + fw.len();
    let a0 = group_init();
    lemma_group_nodes_segment(s, pos, end, g.nodes, a0);
    let a1 = PrimitiveGroupModel { nodes: Seq::<NodeModel>::empty() + g.nodes, ..a0 };
    let a2 = PrimitiveGroupModel { dense: g.dense, ..a1 };
    match g.dense {
        Some(d) => {
            lemma_field_parse_bytes(s, p1, 2, dense_enc(d));
            lemma_dense_enc_roundtrip(s, p1 + key_enc(2, WIRE_LEN).len() + varint_enc(
                dense_enc(d).len(),
            ).len(), d);
            assert(group_parse_rec(s, p1, end, a1) == group_parse_rec(s, p2, end, a2));
        },
        None => {
            assert(a2 =~= a1);
        },
    }
    lemma_group_ways_segment(s, p2, end, g.ways, a2);
    let a3 = PrimitiveGroupModel { ways: Seq::<WayModel>::empty() + g.ways, ..a2 };
    lemma_group_relations_segment(s, p3, end, g.relations, a3);
    let a4 = PrimitiveGroupModel { relations: Seq::<RelationModel>::empty() + g.relations, ..a3 };
    assert(group_parse_rec(s, end, end, a4) == Some(a4));
    assert(Seq::<NodeModel>::empty() + g.nodes =~= g.nodes);
    assert(Seq::<WayModel>::empty() + g.ways =~= g.ways);
    assert(Seq::<RelationModel>::empty() + g.relations =~= g.relations);
    assert(a4 =~= g);
}

/// The length bounds under which an encoded `PrimitiveBlock` is
/// parseable.
pub open spec fn block_enc_fits(b: PrimitiveBlockModel) -> bool {
    &&& string_table_enc(b.stringtable).len() <= u64::MAX
    &&& (forall|i: int|
        0 <= i < b.stringtable.len() ==> (#[trigger] b.stringtable[i]).len() <= u64::MAX)
    &&& (forall|i: int| 0 <= i < b.groups.len() ==> group_enc_fits(#[trigger] b.groups[i]))
}

/// Consuming a run of encoded `PrimitiveGroup` fields appends those
/// groups.
#[verifier::rlimit(100)]
proof fn lemma_block_groups_segment(
    s: Seq<u8>,
    pos: int,
    end: int,
    gs: Seq<PrimitiveGroupModel>,
    acc: PrimitiveBlockModel,
)
    requires
        0 <= pos,
        forall|i: int| 0 <= i < gs.len() ==> group_enc_fits(#[trigger] gs[i]),
        pos + groups_enc(gs).len() <= end <= s.len(),
        s.subrange(pos, pos + groups_enc(gs).len()) == groups_enc(gs),
    ensures
        block_parse_rec(s, pos, end, acc) == block_parse_rec(
            s,
            pos + groups_enc(gs).len(),
            end,
            PrimitiveBlockModel { groups: acc.groups + gs, ..acc },
        ),
    decreases gs.len(),
{
    if gs.len() == 0 {
        assert(PrimitiveBlockModel { groups: acc.groups + gs, ..acc } =~= acc);
        assert(acc.groups + gs =~= acc.groups);
    } else {
        let f0 = key_enc(2, WIRE_LEN) + len_delim_enc(group_enc(gs[0]));
        let rest = groups_enc(gs.drop_first());
        assert(groups_enc(gs) == f0 + rest);
        lemma_subrange_concat(s, pos, f0, rest);
        let p1 = pos + f0.len();
        lemma_block_group_field_step(s, pos, end, gs[0], acc);
        let acc2 = PrimitiveBlockModel { groups: acc.groups.push(gs[0]), ..acc };
        assert forall|i: int| 0 <= i < gs.drop_first().len() implies group_enc_fits(
            #[trigger] gs.drop_first()[i],
        ) by {
            assert(gs.drop_first()[i] == gs[i + 1]);
        }
        lemma_block_groups_segment(s, p1, end, gs.drop_first(), acc2);
        assert(acc.groups.push(gs[0]) + gs.drop_first() =~= acc.groups + gs);
        assert(PrimitiveBlockModel { groups: acc.groups.push(gs[0]) + gs.drop_first(), ..acc2 }
            =~= PrimitiveBlockModel { groups: acc.groups + gs, ..acc });
    }
}

/// Consuming one encoded `PrimitiveGroup` field appends that group.
#[verifier::rlimit(100)]
proof fn lemma_block_group_field_step(
    s: Seq<u8>,
    pos: int,
    end: int,
    g0: PrimitiveGroupModel,
    acc: PrimitiveBlockModel,
)
    requires
        0 <= pos,
        group_enc_fits(g0),
        ({
            let f0 = key_enc(2, WIRE_LEN) + len_delim_enc(group_enc(g0));
            &&& pos + f0.len() <= end <= s.len()
            &&& s.subrange(pos, pos + f0.len()) == f0
        }),
    ensures
        block_parse_rec(s, pos, end, acc) == block_parse_rec(
            s,
            pos + (key_enc(2, WIRE_LEN) + len_delim_enc(group_enc(g0))).len(),
            end,
            PrimitiveBlockModel { groups: acc.groups.push(g0), ..acc },
        ),
{
    lemma_field_parse_bytes(s, pos, 2, group_enc(g0));
    lemma_group_enc_roundtrip(s, pos + key_enc(2, WIRE_LEN).len() + varint_enc(
        group_enc(g0).len(),
    ).len(), g0);
}

/// The last four fields of an encoded `PrimitiveBlock`: the coordinate
/// frame.
#[verifier::rlimit(100)]
proof fn lemma_block_varints(s: Seq<u8>, p: int, end: int, b: PrimitiveBlockModel, acc: PrimitiveBlockModel)
    requires
        0 <= p,
        acc == (PrimitiveBlockModel {
            granularity: 100,
            date_granularity: 1000,
            lat_offset: 0,
            lon_offset: 0,
            ..b
        }),
        ({
            let f17 = key_enc(17, WIRE_VARINT) + varint_enc(i32_as_varint_val(b.granularity) as nat);
            let f18 = key_enc(18, WIRE_VARINT) + varint_enc(
                i32_as_varint_val(b.date_granularity) as nat,
            );
            let f19 = key_enc(19, WIRE_VARINT) + varint_enc(u64_of_i64(b.lat_offset) as nat);
            let f20 = key_enc(20, WIRE_VARINT) + varint_enc(u64_of_i64(b.lon_offset) as nat);
            &&& end == p + (f17 + (f18 + (f19 + f20))).len()
            &&& end <= s.len()
            &&& s.subrange(p, end) == f17 + (f18 + (f19 + f20))
        }),
    ensures
        block_parse_rec(s, p, end, acc) == Some(b),
{
    let f17 = key_enc(17, WIRE_VARINT) + varint_enc(i32_as_varint_val(b.granularity) as nat);
    let f18 = key_enc(18, WIRE_VARINT) + varint_enc(
        i32_as_varint_val(b.date_granularity) as nat,
    );
    let f19 = key_enc(19, WIRE_VARINT) + varint_enc(u64_of_i64(b.lat_offset) as nat);
    let f20 = key_enc(20, WIRE_VARINT) + varint_enc(u64_of_i64(b.lon_offset) as nat);
    lemma_subrange_concat(s, p, f17, f18 + (f19 + f20));
    let p3 = p + f17.len();
    lemma_subrange_concat(s, p3, f18, f19 + f20);
    let p4 = p3 + f18.len();
    lemma_subrange_concat(s, p4, f19, f20);
    let p5 = p4 + f19.len();
    lemma_field_parse_varint(s, p, 17, i32_as_varint_val(b.granularity));
    lemma_i32_varint_roundtrip(b.granularity);
    lemma_field_parse_varint(s, p3, 18, i32_as_varint_val(b.date_granularity));
    lemma_i32_varint_roundtrip(b.date_granularity);
    lemma_field_parse_varint(s, p4, 19, u64_of_i64(b.lat_offset));
    lemma_i64_varint_roundtrip(b.lat_offset);
    lemma_field_parse_varint(s, p5, 20, u64_of_i64(b.lon_offset));
    lemma_i64_varint_roundtrip(b.lon_offset);
    let ac3 = PrimitiveBlockModel { granularity: b.granularity, ..acc };
    let ac4 = PrimitiveBlockModel { date_granularity: b.date_granularity, ..ac3 };
    let ac5 = PrimitiveBlockModel { lat_offset: b.lat_offset, ..ac4 };
    let ac6 = PrimitiveBlockModel { lon_offset: b.lon_offset, ..ac5 };
    assert(block_parse_rec(s, p, end, acc) == block_parse_rec(s, p3, end, ac3));
    assert(block_parse_rec(s, p3, end, ac3) == block_parse_rec(s, p4, end, ac4));
    assert(block_parse_rec(s, p4, end, ac4) == block_parse_rec(s, p5, end, ac5));
    assert(block_parse_rec(s, p5, end, ac5) == block_parse_rec(s, end, end, ac6));
    assert(block_parse_rec(s, end, end, ac6) == Some(ac6));
    assert(ac6 =~= b);
}

/// Consuming the encoded string-table field records its entries.
#[verifier::rlimit(100)]
proof fn lemma_block_table_field_step(
    s: Seq<u8>,
    pos: int,
    end: int,
    entries: Seq<Seq<u8>>,
    acc: PrimitiveBlockModel,
)
    requires
        0 <= pos,
        string_table_enc(entries).len() <= u64::MAX,
        forall|i: int| 0 <= i < entries.len() ==> (#[trigger] entries[i]).len() <= u64::MAX,
        ({
            let f0 = key_enc(1, WIRE_LEN) + len_delim_enc(string_table_enc(entries));
            &&& pos + f0.len() <= end <= s.len()
            &&& s.subrange(pos, pos + f0.len()) == f0
        }),
    ensures
        block_parse_rec(s, pos, end, acc) == block_parse_rec(
            s,
            pos + (key_enc(1, WIRE_LEN) + len_delim_enc(string_table_enc(entries))).len(),
            end,
            PrimitiveBlockModel { stringtable: acc.stringtable + entries, ..acc },
        ),
{
    lemma_field_parse_bytes(s, pos, 1, string_table_enc(entries));
    lemma_string_table_roundtrip(s, pos + key_enc(1, WIRE_LEN).len() + varint_enc(
        string_table_enc(entries).len(),
    ).len(), entries);
}

/// Parsing an encoded `PrimitiveBlock` recovers it: the byte-level
/// round trip of a whole block.
#[verifier::rlimit(100)]
pub proof fn lemma_block_enc_roundtrip(s: Seq<u8>, pos: int, b: PrimitiveBlockModel)
    requires
        0 <= pos,
        block_enc_fits(b),
        pos + block_enc(b).len() <= s.len(),
        s.subrange(pos, pos + block_enc(b).len()) == block_enc(b),
    ensures
        block_parse(s, pos, pos + block_enc(b).len()) == Some(b),
{
    let k1 = key_enc(1, WIRE_LEN);
    let ld = len_delim_enc(string_table_enc(b.stringtable));
    let fst = k1 + ld;
    let g = groups_enc(b.groups);
    let f17 = key_enc(17, WIRE_VARINT) + varint_enc(i32_as_varint_val(b.granularity) as nat);
    let f18 = key_enc(18, WIRE_VARINT) + varint_enc(
        i32_as_varint_val(b.date_granularity) as nat,
    );
    let f19 = key_enc(19, WIRE_VARINT) + varint_enc(u64_of_i64(b.lat_offset) as nat);
    let f20 = key_enc(20, WIRE_VARINT) + varint_enc(u64_of_i64(b.lon_offset) as nat);
    let tail = f17 + (f18 + (f19 + f20));
    let end = pos + block_enc(b).len();
    let a1 = fst + g;
    vstd::seq_lib::lemma_concat_associative(
        a1,
        key_enc(17, WIRE_VARINT),
        varint_enc(i32_as_varint_val(b.granularity) as nat),
    );
    vstd::seq_lib::lemma_concat_associative(
        a1 + f17,
        key_enc(18, WIRE_VARINT),
        varint_enc(i32_as_varint_val(b.date_granularity) as nat),
    );
    vstd::seq_lib::lemma_concat_associative(
        a1 + f17 + f18,
        key_enc(19, WIRE_VARINT),
        varint_enc(u64_of_i64(b.lat_offset) as nat),
    );
    vstd::seq_lib::lemma_concat_associative(
        a1 + f17 + f18 + f19,
        key_enc(20, WIRE_VARINT),
        varint_enc(u64_of_i64(b.lon_offset) as nat),
    );
    assert(block_enc(b) == a1 + f17 + f18 + f19 + f20);
    vstd::seq_lib::lemma_concat_associative(a1 + f17 + f18, f19, f20);
    vstd::seq_lib::lemma_concat_associative(a1 + f17, f18, f19 + f20);
    vstd::seq_lib::lemma_concat_associative(a1, f17, f18 + (f19 + f20));
    vstd::seq_lib::lemma_concat_associative(fst, g, tail);
    assert(block_enc(b) == fst + (g + tail));
    lemma_subrange_concat(s, pos, fst, g + tail);
    let p1 = pos + fst.len();
    lemma_subrange_concat(s, p1, g, tail);
    let p2 = p1 + g.len();
    let a0 = block_init();
    let ac1 = PrimitiveBlockModel {
        stringtable: Seq::<Seq<u8>>::empty() + b.stringtable,
        ..a0
    };
    lemma_block_table_field_step(s, pos, end, b.stringtable, a0);
    lemma_block_groups_segment(s, p1, end, b.groups, ac1);
    let ac2 = PrimitiveBlockModel {
        groups: Seq::<PrimitiveGroupModel>::empty() + b.groups,
        ..ac1
    };
    assert(Seq::<Seq<u8>>::empty() + b.stringtable =~= b.stringtable);
    assert(Seq::<PrimitiveGroupModel>::empty() + b.groups =~= b.groups);
    assert(ac2 =~= (PrimitiveBlockModel {
        granularity: 100,
        date_granularity: 1000,
        lat_offset: 0,
        lon_offset: 0,
        ..b
    }));
    lemma_block_varints(s, p2, end, b, ac2);
}

} // verus!
