//! The laws this codec obeys, proved over the spec functions its
//! contracts are written in: delta coding undoes itself, quantization
//! stays within one granularity unit, a sealed block's string table is
//! complete and duplicate-free, no sealed block exceeds the entity
//! bound, accepted blobs respect the size bounds, and a sealed block
//! traverses back to the entities it was sealed from.

use vstd::prelude::*;
use vstd::utf8::{decode_utf8, encode_utf8, encode_utf8_decode_utf8, encode_utf8_valid_utf8,
    valid_utf8};
use vstd::wrapping::i64_specs;
use crate::blob::{frame_parse, MAX_BODY_LENGTH, MAX_HEADER_LENGTH};
use crate::delta::{
    delta32_decode_spec, delta_decode_spec, lemma_delta32_roundtrip, lemma_delta_roundtrip,
};
use crate::osm::{decoded_coord, decoded_strings, NodeReference};
use crate::osmformat::PrimitiveBlockModel;
use crate::wire::{i32_as_u32, lemma_u32_i32_roundtrip, u32_as_i32};
use crate::writer::{
    block_built, block_entity_count, block_table, dense_built, dense_group_ok, ind,
    lemma_block_built_count, relation_built, relations_group_ok, ways_group_ok,
    lemma_min_units_element, lemma_min_units_le,
    lemma_table_after_relations_facts, lemma_table_after_ways_facts,
    local_lats, local_lons, local_unit, min_units, node_ids, node_lats, node_lons, push_unique,
    scaled_timestamp, table_after_relations, table_after_tags, table_after_ways, way_built,
    NodeEntity, RelationEntityModel, WayEntityModel, MAX_COORDINATE, MAX_ENTITY_COUNT,
};

verus! {

/// Quantization: decoding a coordinate a sealed block stores gives back
/// the appended value rounded down to the block's granularity grid; the
/// loss is less than one granularity unit (100 nanodegrees).
pub proof fn lemma_coordinate_quantization(units: i64, offset: i64)
    requires
        offset <= units,
        -MAX_COORDINATE <= offset,
        units <= MAX_COORDINATE,
    ensures
        decoded_coord(offset, local_unit(units, offset), 100) == units - ((units - offset)
            % 100),
        units - 100 < decoded_coord(offset, local_unit(units, offset), 100) <= units,
{
    let diff = (units as int) - (offset as int);
    let local = local_unit(units, offset);
    assert(0 <= diff);
    assert(diff <= 2 * (MAX_COORDINATE as int));
    assert(diff == 100 * (diff / 100) + diff % 100) by {
        vstd::arithmetic::div_mod::lemma_fundamental_div_mod(diff, 100);
    }
    assert(0 <= diff % 100 < 100);
    assert(0 <= diff / 100 <= diff);
    assert(local == diff / 100);
    assert(i64_specs::wrapping_mul(local, 100) == local * 100) by {
        assert(0 <= local * 100 <= diff);
        assert(i64_specs::signed_crop(local * 100) == local * 100);
    }
    assert(i64_specs::wrapping_add(offset, (local * 100) as i64) == offset + local * 100);
}

/// Every entry of a sealed block's table is valid UTF-8.
proof fn lemma_table_after_tags_valid(t: Seq<Seq<u8>>, tags: Seq<(Seq<char>, Seq<char>)>)
    requires
        forall|i: int| 0 <= i < t.len() ==> valid_utf8(#[trigger] t[i]),
    ensures
        forall|i: int|
            0 <= i < table_after_tags(t, tags).len() ==> valid_utf8(
                #[trigger] table_after_tags(t, tags)[i],
            ),
    decreases tags.len(),
{
    if tags.len() > 0 {
        let b0 = encode_utf8(tags[0].0);
        let b1 = encode_utf8(tags[0].1);
        encode_utf8_valid_utf8(tags[0].0);
        encode_utf8_valid_utf8(tags[0].1);
        let t1 = push_unique(t, b0);
        let t2 = push_unique(t1, b1);
        assert forall|i: int| 0 <= i < t1.len() implies valid_utf8(#[trigger] t1[i]) by {
            if !t.contains(b0) && i == t.len() {
                assert(t1[i] == b0);
            }
        }
        assert forall|i: int| 0 <= i < t2.len() implies valid_utf8(#[trigger] t2[i]) by {
            if !t1.contains(b1) && i == t1.len() {
                assert(t2[i] == b1);
            }
        }
        lemma_table_after_tags_valid(t2, tags.drop_first());
        assert(table_after_tags(t, tags) == table_after_tags(t2, tags.drop_first()));
    }
}

proof fn lemma_table_after_ways_valid(t: Seq<Seq<u8>>, ws: Seq<WayEntityModel>)
    requires
        forall|i: int| 0 <= i < t.len() ==> valid_utf8(#[trigger] t[i]),
    ensures
        forall|i: int|
            0 <= i < table_after_ways(t, ws).len() ==> valid_utf8(
                #[trigger] table_after_ways(t, ws)[i],
            ),
    decreases ws.len(),
{
    if ws.len() > 0 {
        let t1 = table_after_tags(t, ws[0].tags);
        lemma_table_after_tags_valid(t, ws[0].tags);
        lemma_table_after_ways_valid(t1, ws.drop_first());
        assert(table_after_ways(t, ws) == table_after_ways(t1, ws.drop_first()));
    }
}

proof fn lemma_table_after_relations_valid(t: Seq<Seq<u8>>, rs: Seq<RelationEntityModel>)
    requires
        forall|i: int| 0 <= i < t.len() ==> valid_utf8(#[trigger] t[i]),
    ensures
        forall|i: int|
            0 <= i < table_after_relations(t, rs).len() ==> valid_utf8(
                #[trigger] table_after_relations(t, rs)[i],
            ),
    decreases rs.len(),
{
    if rs.len() > 0 {
        let t1 = table_after_tags(t, rs[0].tags);
        lemma_table_after_tags_valid(t, rs[0].tags);
        lemma_table_after_relations_valid(t1, rs.drop_first());
        assert(table_after_relations(t, rs) == table_after_relations(t1, rs.drop_first()));
    }
}

/// A sealed block's table holds only valid UTF-8.
pub proof fn lemma_block_table_valid(ws: Seq<WayEntityModel>, rs: Seq<RelationEntityModel>)
    ensures
        forall|i: int|
            0 <= i < block_table(ws, rs).len() ==> valid_utf8(#[trigger] block_table(ws, rs)[i]),
{
    let init = seq![Seq::<u8>::empty()];
    assert(valid_utf8(Seq::<u8>::empty()));
    assert forall|i: int| 0 <= i < init.len() implies valid_utf8(#[trigger] init[i]) by {
        assert(init[i] == Seq::<u8>::empty());
    }
    lemma_table_after_ways_valid(init, ws);
    lemma_table_after_relations_valid(table_after_ways(init, ws), rs);
}

/// When every entry is valid UTF-8, decoding the table drops nothing:
/// the string list is the entries, decoded, index for index.
pub proof fn lemma_decoded_strings_all_valid(t: Seq<Seq<u8>>)
    requires
        forall|i: int| 0 <= i < t.len() ==> valid_utf8(#[trigger] t[i]),
    ensures
        decoded_strings(t).len() == t.len(),
        forall|i: int| 0 <= i < t.len() ==> decoded_strings(t)[i] == decode_utf8(#[trigger] t[i]),
    decreases t.len(),
{
    if t.len() > 0 {
        assert forall|i: int| 0 <= i < t.drop_first().len() implies valid_utf8(
            #[trigger] t.drop_first()[i],
        ) by {
            assert(t.drop_first()[i] == t[i + 1]);
        }
        lemma_decoded_strings_all_valid(t.drop_first());
        assert(decoded_strings(t) == seq![decode_utf8(t[0])] + decoded_strings(t.drop_first()));
        assert forall|i: int| 0 <= i < t.len() implies decoded_strings(t)[i] == decode_utf8(
            #[trigger] t[i],
        ) by {
            if i > 0 {
                assert(decoded_strings(t)[i] == decoded_strings(t.drop_first())[i - 1]);
                assert(t.drop_first()[i - 1] == t[i]);
            }
        }
    }
}

/// String-table completeness: a sealed block's table holds no entry
/// twice, and every key and value index of its ways and relations lies
/// within the table.
pub proof fn lemma_string_table_completeness(
    b: PrimitiveBlockModel,
    ns: Seq<NodeEntity>,
    ws: Seq<WayEntityModel>,
    rs: Seq<RelationEntityModel>,
    metadata: bool,
)
    requires
        block_built(b, ns, ws, rs, metadata),
    ensures
        forall|i: int, j: int|
            0 <= i < j < b.stringtable.len() ==> b.stringtable[i] != b.stringtable[j],
        b.stringtable.len() >= 1 && b.stringtable[0] == Seq::<u8>::empty(),
        ws.len() > 0 ==> ({
            let g = b.groups[ind(ns.len() > 0)];
            forall|i: int, j: int|
                #![trigger g.ways[i].keys[j]]
                0 <= i < g.ways.len() && 0 <= j < g.ways[i].keys.len() ==> (
                g.ways[i].keys[j] as int) < b.stringtable.len() && (g.ways[i].vals[j] as int)
                    < b.stringtable.len()
        }),
{
    let init = seq![Seq::<u8>::empty()];
    assert forall|i: int, j: int| 0 <= i < j < init.len() implies init[i] != init[j] by {}
    lemma_table_after_ways_facts(init, ws);
    lemma_table_after_relations_facts(table_after_ways(init, ws), rs);
    assert(b.stringtable[0] == init[0]);
    if ws.len() > 0 {
        let g = b.groups[ind(ns.len() > 0)];
        assert(ways_group_ok(g, ws, block_table(ws, rs), metadata));
        assert forall|i: int, j: int|
            #![trigger g.ways[i].keys[j]]
            0 <= i < g.ways.len() && 0 <= j < g.ways[i].keys.len() implies (
        g.ways[i].keys[j] as int) < b.stringtable.len() && (g.ways[i].vals[j] as int)
            < b.stringtable.len() by {
            assert(way_built(g.ways[i], ws[i], block_table(ws, rs), metadata));
        }
    }
}

/// Batch bound: a block sealed from a batch within the entity bound
/// holds no more than `MAX_ENTITY_COUNT` entities.
pub proof fn lemma_batch_bound(
    b: PrimitiveBlockModel,
    ns: Seq<NodeEntity>,
    ws: Seq<WayEntityModel>,
    rs: Seq<RelationEntityModel>,
    metadata: bool,
)
    requires
        block_built(b, ns, ws, rs, metadata),
        ns.len() + ws.len() + rs.len() <= MAX_ENTITY_COUNT,
    ensures
        block_entity_count(b) <= MAX_ENTITY_COUNT,
{
    lemma_block_built_count(b, ns, ws, rs, metadata);
}

/// Blob size bounds: a frame the decoder accepts spans at most the
/// 4-byte prefix, a header under 64 KiB, and a body within 32 MiB; a
/// frame that declares a larger body is refused with exactly
/// `InvalidBodyLength`.
pub proof fn lemma_blob_size_bounds(s: Seq<u8>, pos: int)
    ensures
        frame_parse(s, pos) matches Ok(p) ==> p.1 - pos <= 4 + (MAX_HEADER_LENGTH - 1)
            + MAX_BODY_LENGTH,
        (match frame_parse(s, pos) {
            Err(crate::error::PbfParseError::InvalidBodyLength(n)) => n > MAX_BODY_LENGTH,
            _ => true,
        }),
{
}

/// Round trip, dense nodes: a sealed block's dense run decodes back to
/// the appended nodes. Ids are exact; each coordinate decodes to the
/// appended value rounded down to the granularity grid, less than one
/// unit below it; when metadata is kept, versions, changesets, uids,
/// user ids and visibility come back exactly, and timestamps come back
/// truncated to the date granularity.
pub proof fn lemma_node_roundtrip(
    b: PrimitiveBlockModel,
    ns: Seq<NodeEntity>,
    ws: Seq<WayEntityModel>,
    rs: Seq<RelationEntityModel>,
    metadata: bool,
)
    requires
        block_built(b, ns, ws, rs, metadata),
        ns.len() > 0,
        forall|i: int|
            0 <= i < ns.len() ==> -MAX_COORDINATE <= (#[trigger] ns[i]).latitude
                <= MAX_COORDINATE && -MAX_COORDINATE <= ns[i].longitude <= MAX_COORDINATE,
    ensures
        b.groups[0].dense matches Some(d) && {
            let ids = delta_decode_spec(d.id, 0);
            let lats = delta_decode_spec(d.lat, 0);
            let lons = delta_decode_spec(d.lon, 0);
            &&& ids == node_ids(ns)
            &&& lats.len() == ns.len()
            &&& lons.len() == ns.len()
            &&& (forall|i: int|
                0 <= i < ns.len() ==> ({
                    let declat = decoded_coord(b.lat_offset, lats[i], 100);
                    let declon = decoded_coord(b.lon_offset, lons[i], 100);
                    &&& (#[trigger] ns[i]).latitude - 100 < declat <= ns[i].latitude
                    &&& ns[i].longitude - 100 < declon <= ns[i].longitude
                }))
            &&& (metadata ==> (d.denseinfo matches Some(di) && {
                &&& di.version == ns.map_values(|n: NodeEntity| n.info.version)
                &&& delta_decode_spec(di.timestamp, 0) == ns.map_values(
                    |n: NodeEntity| scaled_timestamp(n.info.timestamp),
                )
                &&& (forall|i: int|
                    0 <= i < ns.len() ==> i64_specs::wrapping_mul(
                        #[trigger] delta_decode_spec(di.timestamp, 0)[i],
                        1000,
                    ) as int == scaled_timestamp(ns[i].info.timestamp) * 1000)
                &&& delta_decode_spec(di.changeset, 0) == ns.map_values(
                    |n: NodeEntity| n.info.changeset,
                )
                &&& delta32_decode_spec(di.uid, 0) == ns.map_values(|n: NodeEntity| n.info.uid)
                &&& (forall|i: int|
                    0 <= i < ns.len() ==> i32_as_u32(
                        #[trigger] delta32_decode_spec(di.user_sid, 0)[i],
                    ) == ns[i].info.user_sid)
                &&& di.visible == ns.map_values(|n: NodeEntity| n.info.visible)
            }))
        },
{
    assert(dense_group_ok(b.groups[0], ns, b.lat_offset, b.lon_offset, metadata));
    let d = b.groups[0].dense->Some_0;
    assert(dense_built(d, ns, b.lat_offset, b.lon_offset, metadata));
    lemma_delta_roundtrip(node_ids(ns), 0);
    lemma_delta_roundtrip(local_lats(ns, b.lat_offset), 0);
    lemma_delta_roundtrip(local_lons(ns, b.lon_offset), 0);
    lemma_min_units_le(node_lats(ns));
    lemma_min_units_le(node_lons(ns));
    lemma_min_units_element(node_lats(ns));
    lemma_min_units_element(node_lons(ns));
    assert(-MAX_COORDINATE <= b.lat_offset) by {
        if min_units(node_lats(ns)) != 0 {
            let i = choose|i: int|
                0 <= i < node_lats(ns).len() && node_lats(ns)[i] == min_units(node_lats(ns));
            assert(node_lats(ns)[i] == ns[i].latitude);
        }
    }
    assert(-MAX_COORDINATE <= b.lon_offset) by {
        if min_units(node_lons(ns)) != 0 {
            let i = choose|i: int|
                0 <= i < node_lons(ns).len() && node_lons(ns)[i] == min_units(node_lons(ns));
            assert(node_lons(ns)[i] == ns[i].longitude);
        }
    }
    assert forall|i: int| 0 <= i < ns.len() implies ({
        let declat = decoded_coord(b.lat_offset, delta_decode_spec(d.lat, 0)[i], 100);
        let declon = decoded_coord(b.lon_offset, delta_decode_spec(d.lon, 0)[i], 100);
        &&& (#[trigger] ns[i]).latitude - 100 < declat <= ns[i].latitude
        &&& ns[i].longitude - 100 < declon <= ns[i].longitude
    }) by {
        assert(node_lats(ns)[i] == ns[i].latitude);
        assert(node_lons(ns)[i] == ns[i].longitude);
        assert(b.lat_offset <= ns[i].latitude);
        assert(b.lon_offset <= ns[i].longitude);
        assert(delta_decode_spec(d.lat, 0)[i] == local_lats(ns, b.lat_offset)[i]);
        assert(local_lats(ns, b.lat_offset)[i] == local_unit(ns[i].latitude, b.lat_offset));
        assert(delta_decode_spec(d.lon, 0)[i] == local_lons(ns, b.lon_offset)[i]);
        assert(local_lons(ns, b.lon_offset)[i] == local_unit(ns[i].longitude, b.lon_offset));
        if b.lat_offset > MAX_COORDINATE {
            assert(b.lat_offset <= ns[0].latitude);
            assert(false);
        }
        if b.lon_offset > MAX_COORDINATE {
            assert(b.lon_offset <= ns[0].longitude);
            assert(false);
        }
        lemma_coordinate_quantization(ns[i].latitude, b.lat_offset);
        lemma_coordinate_quantization(ns[i].longitude, b.lon_offset);
    }
    if metadata {
        let di = d.denseinfo->Some_0;
        lemma_delta_roundtrip(
            ns.map_values(|n: NodeEntity| scaled_timestamp(n.info.timestamp)),
            0,
        );
        lemma_delta_roundtrip(ns.map_values(|n: NodeEntity| n.info.changeset), 0);
        lemma_delta32_roundtrip(ns.map_values(|n: NodeEntity| n.info.uid), 0);
        lemma_delta32_roundtrip(ns.map_values(|n: NodeEntity| u32_as_i32(n.info.user_sid)), 0);
        assert forall|i: int| 0 <= i < ns.len() implies i64_specs::wrapping_mul(
            #[trigger] delta_decode_spec(di.timestamp, 0)[i],
            1000,
        ) as int == scaled_timestamp(ns[i].info.timestamp) * 1000 by {
            let sc = scaled_timestamp(ns[i].info.timestamp);
            assert(delta_decode_spec(di.timestamp, 0)[i] == ns.map_values(
                |n: NodeEntity| scaled_timestamp(n.info.timestamp),
            )[i]);
            let ts = ns[i].info.timestamp;
            assert(i64::MIN <= (sc as int) * 1000 <= i64::MAX) by {
                if ts >= 0 {
                    assert(sc == (ts as int) / 1000);
                    assert(0 <= (sc as int) * 1000 <= ts) by {
                        vstd::arithmetic::div_mod::lemma_fundamental_div_mod(ts as int, 1000);
                    }
                } else {
                    assert(sc == 0 - ((0 - (ts as int)) / 1000));
                    assert(ts <= (sc as int) * 1000 <= 0) by {
                        vstd::arithmetic::div_mod::lemma_fundamental_div_mod(
                            0 - (ts as int),
                            1000,
                        );
                    }
                }
            }
            assert(i64_specs::signed_crop((sc as int) * 1000) == (sc as int) * 1000);
        }
        assert forall|i: int| 0 <= i < ns.len() implies i32_as_u32(
            #[trigger] delta32_decode_spec(di.user_sid, 0)[i],
        ) == ns[i].info.user_sid by {
            assert(delta32_decode_spec(di.user_sid, 0)[i] == ns.map_values(
                |n: NodeEntity| u32_as_i32(n.info.user_sid),
            )[i]);
            lemma_u32_i32_roundtrip(ns[i].info.user_sid);
        }
    }
}

/// Round trip, ways: a sealed block's ways decode back to the appended
/// ways. Ids are exact, the delta-coded node references sum back to the
/// original ids, and each tag index resolves through the decoded string
/// table to the original key and value.
pub proof fn lemma_way_roundtrip(
    b: PrimitiveBlockModel,
    ns: Seq<NodeEntity>,
    ws: Seq<WayEntityModel>,
    rs: Seq<RelationEntityModel>,
    metadata: bool,
)
    requires
        block_built(b, ns, ws, rs, metadata),
        ws.len() > 0,
    ensures
        ({
            let g = b.groups[ind(ns.len() > 0)];
            let sv = decoded_strings(b.stringtable);
            &&& sv.len() == b.stringtable.len()
            &&& g.ways.len() == ws.len()
            &&& (forall|i: int|
                0 <= i < ws.len() ==> {
                    let w = #[trigger] g.ways[i];
                    &&& w.id == ws[i].id
                    &&& delta_decode_spec(w.refs, 0) == ws[i].nodes.map_values(
                        |n: NodeReference| n.id,
                    )
                    &&& w.keys.len() == ws[i].tags.len()
                    &&& w.vals.len() == ws[i].tags.len()
                })
            &&& (forall|i: int, j: int|
                #![trigger g.ways[i].keys[j]]
                0 <= i < ws.len() && 0 <= j < ws[i].tags.len() ==> (g.ways[i].keys[j] as int)
                    < sv.len() && (g.ways[i].vals[j] as int) < sv.len()
                    && sv[g.ways[i].keys[j] as int] == ws[i].tags[j].0
                    && sv[g.ways[i].vals[j] as int] == ws[i].tags[j].1)
        }),
{
    let g = b.groups[ind(ns.len() > 0)];
    let t = block_table(ws, rs);
    let sv = decoded_strings(b.stringtable);
    lemma_block_table_valid(ws, rs);
    lemma_decoded_strings_all_valid(t);
    assert(ways_group_ok(g, ws, t, metadata));
    assert forall|i: int| 0 <= i < ws.len() implies ({
        let w = #[trigger] g.ways[i];
        &&& w.id == ws[i].id
        &&& delta_decode_spec(w.refs, 0) == ws[i].nodes.map_values(|n: NodeReference| n.id)
        &&& w.keys.len() == ws[i].tags.len()
        &&& w.vals.len() == ws[i].tags.len()
    }) by {
        assert(way_built(g.ways[i], ws[i], t, metadata));
        lemma_delta_roundtrip(ws[i].nodes.map_values(|n: NodeReference| n.id), 0);
    }
    assert forall|i: int, j: int|
        #![trigger g.ways[i].keys[j]]
        0 <= i < ws.len() && 0 <= j < ws[i].tags.len() implies (g.ways[i].keys[j] as int)
        < sv.len() && (g.ways[i].vals[j] as int) < sv.len() && sv[g.ways[i].keys[j] as int]
        == ws[i].tags[j].0 && sv[g.ways[i].vals[j] as int] == ws[i].tags[j].1 by {
        assert(way_built(g.ways[i], ws[i], t, metadata));
        assert(t[g.ways[i].keys[j] as int] == encode_utf8(ws[i].tags[j].0));
        assert(t[g.ways[i].vals[j] as int] == encode_utf8(ws[i].tags[j].1));
        encode_utf8_decode_utf8(ws[i].tags[j].0);
        encode_utf8_decode_utf8(ws[i].tags[j].1);
    }
}

/// Round trip, relations: ids exact, member ids summed back exactly,
/// roles and member kinds parallel and exact, tags as for ways.
pub proof fn lemma_relation_roundtrip(
    b: PrimitiveBlockModel,
    ns: Seq<NodeEntity>,
    ws: Seq<WayEntityModel>,
    rs: Seq<RelationEntityModel>,
    metadata: bool,
)
    requires
        block_built(b, ns, ws, rs, metadata),
        rs.len() > 0,
    ensures
        ({
            let g = b.groups[ind(ns.len() > 0) + ind(ws.len() > 0)];
            let sv = decoded_strings(b.stringtable);
            &&& g.relations.len() == rs.len()
            &&& (forall|i: int|
                0 <= i < rs.len() ==> {
                    let rel = #[trigger] g.relations[i];
                    &&& rel.id == rs[i].id
                    &&& delta_decode_spec(rel.memids, 0) == rs[i].members.map_values(
                        |m: crate::osm::MemberReference| m.id,
                    )
                    &&& rel.roles_sid == rs[i].members.map_values(
                        |m: crate::osm::MemberReference| m.role_sid,
                    )
                    &&& (forall|j: int|
                        0 <= j < rs[i].members.len()
                            ==> crate::osm::entity_type_of_code(#[trigger] rel.types[j])
                            == rs[i].members[j].entity_type)
                })
            &&& (forall|i: int, j: int|
                #![trigger g.relations[i].keys[j]]
                0 <= i < rs.len() && 0 <= j < rs[i].tags.len() ==> (
                g.relations[i].keys[j] as int) < sv.len() && (g.relations[i].vals[j] as int)
                    < sv.len() && sv[g.relations[i].keys[j] as int] == rs[i].tags[j].0
                    && sv[g.relations[i].vals[j] as int] == rs[i].tags[j].1)
        }),
{
    let g = b.groups[ind(ns.len() > 0) + ind(ws.len() > 0)];
    let t = block_table(ws, rs);
    let sv = decoded_strings(b.stringtable);
    lemma_block_table_valid(ws, rs);
    lemma_decoded_strings_all_valid(t);
    assert(relations_group_ok(g, rs, t, metadata));
    assert forall|i: int| 0 <= i < rs.len() implies ({
        let rel = #[trigger] g.relations[i];
        &&& rel.id == rs[i].id
        &&& delta_decode_spec(rel.memids, 0) == rs[i].members.map_values(
            |m: crate::osm::MemberReference| m.id,
        )
        &&& rel.roles_sid == rs[i].members.map_values(
            |m: crate::osm::MemberReference| m.role_sid,
        )
        &&& (forall|j: int|
            0 <= j < rs[i].members.len() ==> crate::osm::entity_type_of_code(
                #[trigger] rel.types[j],
            ) == rs[i].members[j].entity_type)
    }) by {
        assert(crate::writer::relation_built(g.relations[i], rs[i], t, metadata));
        lemma_delta_roundtrip(
            rs[i].members.map_values(|m: crate::osm::MemberReference| m.id),
            0,
        );
        assert forall|j: int| 0 <= j < rs[i].members.len()
            implies crate::osm::entity_type_of_code(#[trigger] g.relations[i].types[j])
            == rs[i].members[j].entity_type by {
            assert(g.relations[i].types[j] == rs[i].members.map_values(
                |m: crate::osm::MemberReference| crate::osm::entity_type_code(m.entity_type),
            )[j]);
            crate::osm::lemma_entity_type_roundtrip(rs[i].members[j].entity_type);
        }
    }
    assert forall|i: int, j: int|
        #![trigger g.relations[i].keys[j]]
        0 <= i < rs.len() && 0 <= j < rs[i].tags.len() implies (g.relations[i].keys[j] as int)
        < sv.len() && (g.relations[i].vals[j] as int) < sv.len()
        && sv[g.relations[i].keys[j] as int] == rs[i].tags[j].0
        && sv[g.relations[i].vals[j] as int] == rs[i].tags[j].1 by {
        assert(crate::writer::relation_built(g.relations[i], rs[i], t, metadata));
        assert(t[g.relations[i].keys[j] as int] == encode_utf8(rs[i].tags[j].0));
        assert(t[g.relations[i].vals[j] as int] == encode_utf8(rs[i].tags[j].1));
        encode_utf8_decode_utf8(rs[i].tags[j].0);
        encode_utf8_decode_utf8(rs[i].tags[j].1);
    }
}

/// Round trip, serialized block: the bytes this library writes for a
/// primitive block parse back to it exactly. Together with the framing
/// round trip (`Blob::write` parses back through `frame_parse`) and the
/// entity round trips above, a written file re-reads to the entities it
/// was written from.
pub proof fn lemma_block_bytes_roundtrip(b: PrimitiveBlockModel)
    requires
        crate::osmformat::block_enc_fits(b),
    ensures
        crate::osmformat::block_parse(
            crate::osmformat::block_enc(b),
            0,
            crate::osmformat::block_enc(b).len() as int,
        ) == Some(b),
{
    let bytes = crate::osmformat::block_enc(b);
    assert(bytes.subrange(0, bytes.len() as int) =~= bytes);
    crate::osmformat::lemma_block_enc_roundtrip(bytes, 0, b);
}

} // verus!

