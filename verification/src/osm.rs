//! The decoded OSM entity types handed to visitors, and the reader that
//! walks a file's blocks and dispatches per-entity callbacks.

use vstd::prelude::*;
use vstd::utf8::decode_utf8;
use vstd::utf8::valid_utf8;
use vstd::wrapping::i64_specs;
use crate::blob::Blob;
use crate::blob::BlobType;
use crate::delta::{delta32_decode, delta32_decode_spec, delta_decode, delta_decode_spec};
use crate::error::PbfParseError;
use crate::osmformat::{
    deep_bytes, parse_block, DenseNodes, DenseNodesModel, Info, Node, NodeModel, PrimitiveBlock,
    PrimitiveBlockModel, PrimitiveGroup, PrimitiveGroupModel, Relation, RelationModel, Way,
    WayModel,
};
use crate::reader::BlobReader;
use crate::visitor::OsmEvent;
use crate::strings::bytes_to_string;
use crate::visitor::OsmVisitor;
use crate::wire::i32_as_u32;
use crate::wire::i32_to_u32;

verus! {

/// One nanodegree, the base coordinate unit: all coordinates in this
/// library are integer counts of it.
pub const NANODEGREES_PER_DEGREE: i64 = 1_000_000_000;

/// A reference to a node by its absolute id.
#[derive(Debug, Copy, Clone, PartialEq, Eq, Structural)]
pub struct NodeReference {
    pub id: i64,
}

/// The kind of entity a relation member refers to.
#[derive(Debug, Copy, Clone, PartialEq, Eq, Structural)]
pub enum OsmEntityType {
    Node,
    Way,
    Relation,
}

/// The wire value of each member kind.
pub open spec fn entity_type_code(t: OsmEntityType) -> i32 {
    match t {
        OsmEntityType::Node => 0,
        OsmEntityType::Way => 1,
        OsmEntityType::Relation => 2,
    }
}

/// The member kind a wire value stands for; unknown values fall back to
/// the wire format's first kind.
pub open spec fn entity_type_of_code(v: i32) -> OsmEntityType {
    if v == 1 {
        OsmEntityType::Way
    } else if v == 2 {
        OsmEntityType::Relation
    } else {
        OsmEntityType::Node
    }
}

impl OsmEntityType {
    /// Maps a wire value to its member kind.
    pub fn from(value: i32) -> (r: OsmEntityType)
        ensures
            r == entity_type_of_code(value),
    {
        if value == 1 {
            OsmEntityType::Way
        } else if value == 2 {
            OsmEntityType::Relation
        } else {
            OsmEntityType::Node
        }
    }

    /// The wire value of this member kind.
    pub fn into(self) -> (r: i32)
        ensures
            r == entity_type_code(self),
    {
        match self {
            OsmEntityType::Node => 0,
            OsmEntityType::Way => 1,
            OsmEntityType::Relation => 2,
        }
    }
}

pub proof fn lemma_entity_type_roundtrip(t: OsmEntityType)
    ensures
        entity_type_of_code(entity_type_code(t)) == t,
{
}

/// A reference to a relation member: its id, kind, and role string index.
#[derive(Debug, Copy, Clone, PartialEq, Eq, Structural)]
pub struct MemberReference {
    pub id: i64,
    pub entity_type: OsmEntityType,
    pub role_sid: i32,
}

/// Per-entity metadata as visitors and the builder carry it: the
/// timestamp is in milliseconds, unscaled.
#[derive(Debug, Copy, Clone, PartialEq, Eq, Structural)]
pub struct EntityInfo {
    pub version: i32,
    pub timestamp: i64,
    pub changeset: i64,
    pub uid: i32,
    pub user_sid: u32,
    pub visible: bool,
}

/// A file-level header block, kept as its serialized bytes: the codec
/// only frames it and hands it through.
#[derive(Debug)]
pub struct HeaderBlock {
    pub data: Vec<u8>,
}

impl View for HeaderBlock {
    type V = Seq<u8>;

    open spec fn view(&self) -> Seq<u8> {
        self.data@
    }
}

/// The strings a block's table decodes to, in order; entries that are
/// not valid UTF-8 are dropped silently.
pub open spec fn decoded_strings(entries: Seq<Seq<u8>>) -> Seq<Seq<char>>
    decreases entries.len(),
{
    if entries.len() == 0 {
        Seq::empty()
    } else {
        (if valid_utf8(entries[0]) {
            seq![decode_utf8(entries[0])]
        } else {
            Seq::empty()
        }) + decoded_strings(entries.drop_first())
    }
}

/// Decodes a block's string table.
pub fn parse_string_table(table: &Vec<Vec<u8>>) -> (r: Vec<String>)
    ensures
        r@.map_values(|s: String| s@) == decoded_strings(deep_bytes(table@)),
{
    let ghost entries = deep_bytes(table@);
    let mut out: Vec<String> = Vec::new();
    let mut i: usize = 0;
    proof {
        assert(entries.skip(0) =~= entries);
        assert(out@.map_values(|s: String| s@) =~= Seq::<Seq<char>>::empty());
        assert(Seq::<Seq<char>>::empty() + decoded_strings(entries) =~= decoded_strings(
            entries,
        ));
    }
    while i < table.len()
        invariant
            i <= table@.len(),
            entries == deep_bytes(table@),
            entries.len() == table@.len(),
            decoded_strings(entries) == out@.map_values(|s: String| s@) + decoded_strings(
                entries.skip(i as int),
            ),
        decreases table@.len() - i,
    {
        proof {
            let rest = entries.skip(i as int);
            assert(rest[0] == entries[i as int]);
            assert(entries[i as int] == table@[i as int]@);
            assert(rest.drop_first() =~= entries.skip(i as int + 1));
        }
        match bytes_to_string(table[i].as_slice()) {
            Some(s) => {
                proof {
                    let rest = entries.skip(i as int);
                    assert(out@.map_values(|x: String| x@) + decoded_strings(rest) =~= out@.push(
                        s,
                    ).map_values(|x: String| x@) + decoded_strings(entries.skip(i as int + 1)));
                }
                out.push(s);
            },
            None => {
                proof {
                    let rest = entries.skip(i as int);
                    assert(out@.map_values(|x: String| x@) + decoded_strings(rest)
                        =~= out@.map_values(|x: String| x@) + decoded_strings(
                        entries.skip(i as int + 1),
                    ));
                }
            },
        }
        i += 1;
    }
    proof {
        assert(entries.skip(entries.len() as int) =~= Seq::<Seq<u8>>::empty());
        assert(entries.skip(entries.len() as int).len() == 0);
        assert(decoded_strings(entries.skip(entries.len() as int)) =~= Seq::<Seq<char>>::empty());
        assert(out@.map_values(|s: String| s@) + Seq::<Seq<char>>::empty() =~= out@.map_values(
            |s: String| s@,
        ));
    }
    out
}

/// The absolute nanodegree value a raw block-local coordinate stands
/// for: the block origin plus the scaled value, wrapping as 64-bit
/// arithmetic does on a malformed block.
pub open spec fn decoded_coord(offset: i64, v: i64, g: i64) -> i64 {
    i64_specs::wrapping_add(offset, i64_specs::wrapping_mul(v, g))
}

/// The per-block decoding context: the coordinate frame and the decoded
/// string table.
pub struct OsmBlockParser {
    pub origin_latitude: i64,
    pub origin_longitude: i64,
    pub granularity: i64,
    pub date_granularity: i64,
    pub strings: Vec<String>,
}

impl OsmBlockParser {
    /// The decoding context of one block.
    pub fn new(block: &PrimitiveBlock) -> (r: OsmBlockParser)
        ensures
            r.origin_latitude == block@.lat_offset,
            r.origin_longitude == block@.lon_offset,
            r.granularity == block@.granularity as i64,
            r.date_granularity == block@.date_granularity as i64,
            r.strings@.map_values(|s: String| s@) == decoded_strings(block@.stringtable),
    {
        OsmBlockParser {
            origin_latitude: block.lat_offset,
            origin_longitude: block.lon_offset,
            granularity: block.granularity as i64,
            date_granularity: block.date_granularity as i64,
            strings: parse_string_table(&block.stringtable),
        }
    }

    /// The absolute latitude, in nanodegrees, of a raw coordinate.
    pub fn get_lat(&self, lat: i64) -> (r: i64)
        ensures
            r == decoded_coord(self.origin_latitude, lat, self.granularity),
    {
        self.origin_latitude.wrapping_add(lat.wrapping_mul(self.granularity))
    }

    /// The absolute longitude, in nanodegrees, of a raw coordinate.
    pub fn get_lon(&self, lon: i64) -> (r: i64)
        ensures
            r == decoded_coord(self.origin_longitude, lon, self.granularity),
    {
        self.origin_longitude.wrapping_add(lon.wrapping_mul(self.granularity))
    }

    /// Resolves parallel key/value index arrays through the string
    /// table. An index past the table refuses the block as malformed.
    pub fn parse_tags(&self, keys: &Vec<u32>, vals: &Vec<u32>) -> (r: Result<
        Vec<(String, String)>,
        PbfParseError,
    >)
        ensures
            ({
                let n = if keys@.len() <= vals@.len() {
                    keys@.len() as int
                } else {
                    vals@.len() as int
                };
                let sv = self.strings@.map_values(|s: String| s@);
                match r {
                    Ok(tags) => {
                        &&& tags@.len() == n
                        &&& forall|j: int|
                            0 <= j < n ==> (#[trigger] keys@[j] as int) < sv.len() && (
                            vals@[j] as int) < sv.len()
                        &&& forall|j: int|
                            0 <= j < n ==> ((#[trigger] tags@[j]).0@ == sv[keys@[j] as int]
                                && tags@[j].1@ == sv[vals@[j] as int])
                    },
                    Err(e) => {
                        &&& e == PbfParseError::InvalidMessage
                        &&& exists|j: int|
                            0 <= j < n && ((#[trigger] keys@[j] as int) >= sv.len() || (
                            vals@[j] as int) >= sv.len())
                    },
                }
            }),
    {
        let n = if keys.len() <= vals.len() {
            keys.len()
        } else {
            vals.len()
        };
        let mut out: Vec<(String, String)> = Vec::new();
        let mut j: usize = 0;
        while j < n
            invariant
                j <= n,
                n == (if keys@.len() <= vals@.len() {
                    keys@.len() as int
                } else {
                    vals@.len() as int
                }),
                n <= keys@.len() && n <= vals@.len(),
                out@.len() == j,
                forall|k: int|
                    0 <= k < j ==> (#[trigger] keys@[k] as int) < self.strings@.len() && (
                    vals@[k] as int) < self.strings@.len(),
                forall|k: int|
                    0 <= k < j ==> ((#[trigger] out@[k]).0@ == self.strings@.map_values(
                        |s: String| s@,
                    )[keys@[k] as int] && out@[k].1@ == self.strings@.map_values(
                        |s: String| s@,
                    )[vals@[k] as int]),
            decreases n - j,
        {
            let key_index = keys[j] as usize;
            let val_index = vals[j] as usize;
            if key_index >= self.strings.len() || val_index >= self.strings.len() {
                return Err(PbfParseError::InvalidMessage);
            }
            let key = self.strings[key_index].clone();
            let value = self.strings[val_index].clone();
            out.push((key, value));
            j += 1;
        }
        Ok(out)
    }
}

/// The frame a traversal decodes under: the block's coordinate origin,
/// granularities, and decoded string table.
#[verifier::ext_equal]
pub struct BlockCtx {
    pub lat_offset: i64,
    pub lon_offset: i64,
    pub granularity: i64,
    pub date_granularity: i64,
    pub strings: Seq<Seq<char>>,
}

pub open spec fn parser_ctx(p: OsmBlockParser) -> BlockCtx {
    BlockCtx {
        lat_offset: p.origin_latitude,
        lon_offset: p.origin_longitude,
        granularity: p.granularity,
        date_granularity: p.date_granularity,
        strings: p.strings@.map_values(|s: String| s@),
    }
}

pub open spec fn block_ctx(b: PrimitiveBlockModel) -> BlockCtx {
    BlockCtx {
        lat_offset: b.lat_offset,
        lon_offset: b.lon_offset,
        granularity: b.granularity as i64,
        date_granularity: b.date_granularity as i64,
        strings: decoded_strings(b.stringtable),
    }
}

/// The `visit_info` callback an entity's metadata produces: scaled
/// timestamp, defaults when absent.
pub open spec fn info_event(info: Option<Info>, date_granularity: i64) -> OsmEvent {
    match info {
        Some(i) => OsmEvent::InfoSeen {
            version: i.version,
            timestamp: i64_specs::wrapping_mul(i.timestamp, date_granularity),
            changeset: i.changeset,
            uid: i.uid,
            user_sid: i.user_sid,
            visible: i.visible,
        },
        None => OsmEvent::InfoSeen {
            version: 0,
            timestamp: 0,
            changeset: 0,
            uid: 0,
            user_sid: 0,
            visible: true,
        },
    }
}

/// The callbacks a run of sparse nodes produces: one `visit_node` and
/// one `visit_info` per node, in order.
pub open spec fn node_events(c: BlockCtx, ns: Seq<NodeModel>) -> Seq<OsmEvent> {
    Seq::new(
        2 * ns.len(),
        |k: int|
            if k % 2 == 0 {
                OsmEvent::NodeSeen {
                    id: ns[k / 2].id,
                    latitude: decoded_coord(c.lat_offset, ns[k / 2].lat, c.granularity),
                    longitude: decoded_coord(c.lon_offset, ns[k / 2].lon, c.granularity),
                }
            } else {
                info_event(ns[k / 2].info, c.date_granularity)
            },
    )
}

pub open spec fn zip_len(a: int, b: int) -> int {
    if a <= b {
        a
    } else {
        b
    }
}

/// Whether every key and value index of the zipped arrays lies within
/// the string table.
pub open spec fn tags_ok(c: BlockCtx, keys: Seq<u32>, vals: Seq<u32>) -> bool {
    forall|j: int|
        0 <= j < zip_len(keys.len() as int, vals.len() as int) ==> ((#[trigger] keys[j]) as int)
            < c.strings.len() && ((vals[j]) as int) < c.strings.len()
}

/// The tag list the zipped index arrays resolve to.
pub open spec fn resolved_tags(c: BlockCtx, keys: Seq<u32>, vals: Seq<u32>) -> Seq<
    (Seq<char>, Seq<char>),
> {
    Seq::new(
        zip_len(keys.len() as int, vals.len() as int) as nat,
        |j: int| (c.strings[keys[j] as int], c.strings[vals[j] as int]),
    )
}

/// The `visit_way` callback a way produces: prefix-summed references,
/// resolved tags.
pub open spec fn way_event(c: BlockCtx, w: WayModel) -> OsmEvent {
    OsmEvent::WaySeen {
        id: w.id,
        refs: delta_decode_spec(w.refs, 0),
        tags: resolved_tags(c, w.keys, w.vals),
    }
}

pub open spec fn way_events(c: BlockCtx, ws: Seq<WayModel>) -> Seq<OsmEvent> {
    Seq::new(
        2 * ws.len(),
        |k: int|
            if k % 2 == 0 {
                way_event(c, ws[k / 2])
            } else {
                info_event(ws[k / 2].info, c.date_granularity)
            },
    )
}

pub open spec fn ways_wf(c: BlockCtx, ws: Seq<WayModel>) -> bool {
    forall|i: int| 0 <= i < ws.len() ==> tags_ok(c, (#[trigger] ws[i]).keys, ws[i].vals)
}

/// The members a relation's parallel arrays decode to.
pub open spec fn relation_members(r: RelationModel) -> Seq<MemberReference> {
    Seq::new(
        r.memids.len(),
        |j: int|
            MemberReference {
                id: delta_decode_spec(r.memids, 0)[j],
                entity_type: entity_type_of_code(r.types[j]),
                role_sid: r.roles_sid[j],
            },
    )
}

pub open spec fn relation_event(c: BlockCtx, r: RelationModel) -> OsmEvent {
    OsmEvent::RelationSeen {
        id: r.id,
        members: relation_members(r),
        tags: resolved_tags(c, r.keys, r.vals),
    }
}

pub open spec fn relation_events(c: BlockCtx, rs: Seq<RelationModel>) -> Seq<OsmEvent> {
    Seq::new(
        2 * rs.len(),
        |k: int|
            if k % 2 == 0 {
                relation_event(c, rs[k / 2])
            } else {
                info_event(rs[k / 2].info, c.date_granularity)
            },
    )
}

/// A relation is traversable when its tags resolve and its role and
/// kind arrays cover every member.
pub open spec fn relation_wf(c: BlockCtx, r: RelationModel) -> bool {
    &&& tags_ok(c, r.keys, r.vals)
    &&& r.types.len() >= r.memids.len()
    &&& r.roles_sid.len() >= r.memids.len()
}

pub open spec fn relations_wf(c: BlockCtx, rs: Seq<RelationModel>) -> bool {
    forall|i: int| 0 <= i < rs.len() ==> relation_wf(c, #[trigger] rs[i])
}

/// A dense run is traversable when its coordinate arrays match its ids
/// and any metadata arrays cover every node (visibility may be short).
pub open spec fn dense_wf(d: DenseNodesModel) -> bool {
    &&& d.lat.len() == d.id.len()
    &&& d.lon.len() == d.id.len()
    &&& (d.denseinfo matches Some(di) ==> {
        &&& di.version.len() >= d.id.len()
        &&& di.timestamp.len() >= d.id.len()
        &&& di.changeset.len() >= d.id.len()
        &&& di.uid.len() >= d.id.len()
        &&& di.user_sid.len() >= d.id.len()
    })
}

pub open spec fn dense_info_event(d: DenseNodesModel, dg: i64, i: int) -> OsmEvent {
    match d.denseinfo {
        Some(di) => OsmEvent::InfoSeen {
            version: di.version[i],
            timestamp: i64_specs::wrapping_mul(delta_decode_spec(di.timestamp, 0)[i], dg),
            changeset: delta_decode_spec(di.changeset, 0)[i],
            uid: delta32_decode_spec(di.uid, 0)[i],
            user_sid: i32_as_u32(delta32_decode_spec(di.user_sid, 0)[i]),
            visible: if i < di.visible.len() {
                di.visible[i]
            } else {
                true
            },
        },
        None => OsmEvent::InfoSeen {
            version: 0,
            timestamp: 0,
            changeset: 0,
            uid: 0,
            user_sid: 0,
            visible: true,
        },
    }
}

/// The callbacks a dense run produces: ids and coordinates prefix-summed
/// and decoded, metadata prefix-summed and scaled.
pub open spec fn dense_events(c: BlockCtx, d: DenseNodesModel) -> Seq<OsmEvent> {
    Seq::new(
        2 * d.id.len(),
        |k: int|
            if k % 2 == 0 {
                OsmEvent::NodeSeen {
                    id: delta_decode_spec(d.id, 0)[k / 2],
                    latitude: decoded_coord(
                        c.lat_offset,
                        delta_decode_spec(d.lat, 0)[k / 2],
                        c.granularity,
                    ),
                    longitude: decoded_coord(
                        c.lon_offset,
                        delta_decode_spec(d.lon, 0)[k / 2],
                        c.granularity,
                    ),
                }
            } else {
                dense_info_event(d, c.date_granularity, k / 2)
            },
    )
}

/// The callbacks between one `visit_group` and its `end_group`.
pub open spec fn group_body_events(c: BlockCtx, g: PrimitiveGroupModel) -> Seq<OsmEvent> {
    if g.nodes.len() > 0 {
        node_events(c, g.nodes)
    } else if g.ways.len() > 0 {
        way_events(c, g.ways)
    } else if g.relations.len() > 0 {
        relation_events(c, g.relations)
    } else {
        match g.dense {
            Some(d) => dense_events(c, d),
            None => Seq::empty(),
        }
    }
}

pub open spec fn group_events(c: BlockCtx, g: PrimitiveGroupModel) -> Seq<OsmEvent> {
    seq![OsmEvent::GroupStarted] + group_body_events(c, g) + seq![OsmEvent::GroupEnded]
}

pub open spec fn group_wf(c: BlockCtx, g: PrimitiveGroupModel) -> bool {
    if g.nodes.len() > 0 {
        true
    } else if g.ways.len() > 0 {
        ways_wf(c, g.ways)
    } else if g.relations.len() > 0 {
        relations_wf(c, g.relations)
    } else {
        match g.dense {
            Some(d) => dense_wf(d),
            None => true,
        }
    }
}

pub open spec fn groups_events(c: BlockCtx, gs: Seq<PrimitiveGroupModel>) -> Seq<OsmEvent>
    decreases gs.len(),
{
    if gs.len() == 0 {
        Seq::empty()
    } else {
        group_events(c, gs[0]) + groups_events(c, gs.drop_first())
    }
}

pub proof fn lemma_groups_events_push(c: BlockCtx, gs: Seq<PrimitiveGroupModel>, g: PrimitiveGroupModel)
    ensures
        groups_events(c, gs.push(g)) == groups_events(c, gs) + group_events(c, g),
    decreases gs.len(),
{
    if gs.len() == 0 {
        assert(gs.push(g)[0] == g);
        assert(gs.push(g).drop_first() =~= Seq::<PrimitiveGroupModel>::empty());
        assert(groups_events(c, gs.push(g)) == group_events(c, g) + groups_events(
            c,
            gs.push(g).drop_first(),
        ));
        assert(groups_events(c, gs.push(g)) =~= groups_events(c, gs) + group_events(c, g));
    } else {
        let u = gs.push(g);
        assert(u[0] == gs[0]);
        assert(u.drop_first() =~= gs.drop_first().push(g));
        lemma_groups_events_push(c, gs.drop_first(), g);
        assert(groups_events(c, u) == group_events(c, u[0]) + groups_events(c, u.drop_first()));
        assert(groups_events(c, gs) == group_events(c, gs[0]) + groups_events(
            c,
            gs.drop_first(),
        ));
        assert(groups_events(c, gs.push(g)) =~= groups_events(c, gs) + group_events(c, g));
    }
}

/// The whole callback sequence one data block delivers: block frame,
/// string table, each group, block end.
pub open spec fn block_events(b: PrimitiveBlockModel) -> Seq<OsmEvent> {
    let c = block_ctx(b);
    seq![
        OsmEvent::BlockStarted {
            lat_offset: b.lat_offset,
            lon_offset: b.lon_offset,
            granularity: b.granularity,
            date_granularity: b.date_granularity,
        },
        OsmEvent::StringTableSeen { strings: c.strings },
    ] + groups_events(c, b.groups) + seq![OsmEvent::BlockEnded]
}

/// Whether every group of a block is traversable.
pub open spec fn block_traversal_wf(b: PrimitiveBlockModel) -> bool {
    forall|i: int| 0 <= i < b.groups.len() ==> group_wf(block_ctx(b), #[trigger] b.groups[i])
}

/// The log grew by some prefix of the expected callback run: what a
/// traversal guarantees when a callback of the visitor itself failed.
pub open spec fn traversal_prefix(
    d0: Seq<OsmEvent>,
    dn: Seq<OsmEvent>,
    evs: Seq<OsmEvent>,
) -> bool {
    &&& d0.len() <= dn.len() <= d0.len() + evs.len()
    &&& dn == d0 + evs.take(dn.len() - d0.len())
}

/// Forwards an entity's metadata, or the defaults when it carries none.
/// Timestamps scale up by the block's date granularity.
fn visit_info_of<V: OsmVisitor>(
    visitor: &mut V,
    info: &Option<Info>,
    date_granularity: i64,
) -> (r: Result<(), PbfParseError>)
    ensures
        final(visitor).events() == old(visitor).events().push(
            info_event(*info, date_granularity),
        ),
{
    match info {
        Some(i) => visitor.visit_info(
            i.version,
            i.timestamp.wrapping_mul(date_granularity),
            i.changeset,
            i.uid,
            i.user_sid,
            i.visible,
        ),
        None => visitor.visit_info(0, 0, 0, 0, 0, true),
    }
}

/// Walks a run of sparse nodes, delivering its callbacks in order; a
/// callback error stops the walk after the callbacks already made.
fn visit_nodes<V: OsmVisitor>(
    parser: &OsmBlockParser,
    nodes: &Vec<Node>,
    visitor: &mut V,
) -> (r: Result<(), PbfParseError>)
    ensures
        ({
            let evs = node_events(parser_ctx(*parser), nodes@.map_values(|n: Node| n@));
            &&& (r is Ok ==> final(visitor).events() == old(visitor).events() + evs)
            &&& (r is Err ==> traversal_prefix(
                old(visitor).events(),
                final(visitor).events(),
                evs,
            ))
        }),
{
    let ghost c = parser_ctx(*parser);
    let ghost ns = nodes@.map_values(|n: Node| n@);
    let ghost evs = node_events(c, ns);
    let ghost d0 = old(visitor).events();
    proof {
        assert(d0 + evs.take(0) =~= d0);
    }
    let mut i: usize = 0;
    while i < nodes.len()
        invariant
            i <= nodes@.len(),
            c == parser_ctx(*parser),
            ns == nodes@.map_values(|n: Node| n@),
            evs == node_events(c, ns),
            d0 == old(visitor).events(),
            visitor.events() == d0 + evs.take(2 * i as int),
        decreases nodes@.len() - i,
    {
        let node = &nodes[i];
        proof {
            assert(ns[i as int] == nodes@[i as int]@);
            assert(evs[2 * i as int] == (OsmEvent::NodeSeen {
                id: node.id,
                latitude: decoded_coord(c.lat_offset, node.lat, c.granularity),
                longitude: decoded_coord(c.lon_offset, node.lon, c.granularity),
            }));
            assert(evs.take(2 * i as int + 1) =~= evs.take(2 * i as int).push(
                evs[2 * i as int],
            ));
        }
        let latitude = parser.get_lat(node.lat);
        let longitude = parser.get_lon(node.lon);
        let res = visitor.visit_node(node.id, latitude, longitude);
        proof {
            assert(visitor.events() =~= d0 + evs.take(2 * i as int + 1));
        }
        if let Err(e) = res {
            proof {
                let w = 2 * i as int + 1;
                assert(0 <= w <= evs.len());
                assert(visitor.events() == d0 + evs.take(w));
                assert(traversal_prefix(d0, visitor.events(), evs)) by {
                    assert(0 <= w <= evs.len() && visitor.events() == d0 + evs.take(w));
                    assert(visitor.events().len() - d0.len() == w);
                }
            }
            return Err(e);
        }
        proof {
            assert(evs[2 * i as int + 1] == info_event(ns[i as int].info, c.date_granularity));
            assert(evs.take(2 * i as int + 2) =~= evs.take(2 * i as int + 1).push(
                evs[2 * i as int + 1],
            ));
        }
        let res2 = visit_info_of(visitor, &node.info, parser.date_granularity);
        proof {
            assert(visitor.events() =~= d0 + evs.take(2 * i as int + 2));
        }
        if let Err(e) = res2 {
            proof {
                let w = 2 * i as int + 2;
                assert(0 <= w <= evs.len());
                assert(visitor.events() == d0 + evs.take(w));
                assert(traversal_prefix(d0, visitor.events(), evs)) by {
                    assert(0 <= w <= evs.len() && visitor.events() == d0 + evs.take(w));
                    assert(visitor.events().len() - d0.len() == w);
                }
            }
            return Err(e);
        }
        i += 1;
    }
    proof {
        assert(evs.take(evs.len() as int) =~= evs);
    }
    Ok(())
}

/// Walks a run of ways: node references prefix-summed to absolute ids,
/// tags resolved through the table; an unresolvable tag index refuses
/// the block as malformed.
fn visit_ways<V: OsmVisitor>(
    parser: &OsmBlockParser,
    ways: &Vec<Way>,
    visitor: &mut V,
) -> (r: Result<(), PbfParseError>)
    ensures
        ({
            let c = parser_ctx(*parser);
            let ws = ways@.map_values(|w: Way| w@);
            let evs = way_events(c, ws);
            &&& (r is Ok ==> final(visitor).events() == old(visitor).events() + evs
                && ways_wf(c, ws))
            &&& (r is Err ==> traversal_prefix(
                old(visitor).events(),
                final(visitor).events(),
                evs,
            ))
            &&& (!ways_wf(c, ws) ==> r is Err)
        }),
{
    let ghost c = parser_ctx(*parser);
    let ghost ws = ways@.map_values(|w: Way| w@);
    let ghost evs = way_events(c, ws);
    let ghost d0 = old(visitor).events();
    proof {
        assert(d0 + evs.take(0) =~= d0);
    }
    let mut i: usize = 0;
    while i < ways.len()
        invariant
            i <= ways@.len(),
            c == parser_ctx(*parser),
            ws == ways@.map_values(|w: Way| w@),
            evs == way_events(c, ws),
            d0 == old(visitor).events(),
            visitor.events() == d0 + evs.take(2 * i as int),
            forall|k: int| 0 <= k < i ==> tags_ok(c, (#[trigger] ws[k]).keys, ws[k].vals),
        decreases ways@.len() - i,
    {
        let way = &ways[i];
        proof {
            assert(ws[i as int] == ways@[i as int]@);
        }
        let tags = match parser.parse_tags(&way.keys, &way.vals) {
            Ok(t) => t,
            Err(e) => {
                proof {
                    assert(!tags_ok(c, ws[i as int].keys, ws[i as int].vals));
                    assert(!ways_wf(c, ws));
                    let w = 2 * i as int;
                    assert(0 <= w <= evs.len());
                    assert(visitor.events() == d0 + evs.take(w));
                    assert(traversal_prefix(d0, visitor.events(), evs)) by {
                        assert(0 <= w <= evs.len() && visitor.events() == d0 + evs.take(w));
                        assert(visitor.events().len() - d0.len() == w);
                    }
                }
                return Err(e);
            },
        };
        let ref_ids = delta_decode(&way.refs);
        let mut nodes: Vec<NodeReference> = Vec::new();
        let mut m: usize = 0;
        while m < ref_ids.len()
            invariant
                m <= ref_ids@.len(),
                nodes@ == ref_ids@.take(m as int).map_values(|id: i64| NodeReference { id }),
            decreases ref_ids@.len() - m,
        {
            proof {
                assert(ref_ids@.take(m as int + 1) =~= ref_ids@.take(m as int).push(
                    ref_ids@[m as int],
                ));
                assert(ref_ids@.take(m as int + 1).map_values(|id: i64| NodeReference { id })
                    =~= ref_ids@.take(m as int).map_values(|id: i64| NodeReference { id }).push(
                    NodeReference { id: ref_ids@[m as int] },
                ));
            }
            nodes.push(NodeReference { id: ref_ids[m] });
            m += 1;
        }
        proof {
            assert(ref_ids@.take(ref_ids@.len() as int) =~= ref_ids@);
            assert(nodes@.map_values(|n: NodeReference| n.id) =~= delta_decode_spec(
                ws[i as int].refs,
                0,
            ));
            assert(tags@.map_values(|t: (String, String)| (t.0@, t.1@)) =~= resolved_tags(
                c,
                ws[i as int].keys,
                ws[i as int].vals,
            ));
            assert(evs[2 * i as int] == way_event(c, ws[i as int]));
            assert(evs.take(2 * i as int + 1) =~= evs.take(2 * i as int).push(
                evs[2 * i as int],
            ));
        }
        let res = visitor.visit_way(way.id, nodes, tags);
        proof {
            assert(visitor.events() =~= d0 + evs.take(2 * i as int + 1));
        }
        if let Err(e) = res {
            proof {
                let w = 2 * i as int + 1;
                assert(0 <= w <= evs.len());
                assert(visitor.events() == d0 + evs.take(w));
                assert(traversal_prefix(d0, visitor.events(), evs)) by {
                    assert(0 <= w <= evs.len() && visitor.events() == d0 + evs.take(w));
                    assert(visitor.events().len() - d0.len() == w);
                }
            }
            return Err(e);
        }
        proof {
            assert(evs[2 * i as int + 1] == info_event(ws[i as int].info, c.date_granularity));
            assert(evs.take(2 * i as int + 2) =~= evs.take(2 * i as int + 1).push(
                evs[2 * i as int + 1],
            ));
        }
        let res2 = visit_info_of(visitor, &way.info, parser.date_granularity);
        proof {
            assert(visitor.events() =~= d0 + evs.take(2 * i as int + 2));
        }
        if let Err(e) = res2 {
            proof {
                let w = 2 * i as int + 2;
                assert(0 <= w <= evs.len());
                assert(visitor.events() == d0 + evs.take(w));
                assert(traversal_prefix(d0, visitor.events(), evs)) by {
                    assert(0 <= w <= evs.len() && visitor.events() == d0 + evs.take(w));
                    assert(visitor.events().len() - d0.len() == w);
                }
            }
            return Err(e);
        }
        i += 1;
    }
    proof {
        assert(evs.take(evs.len() as int) =~= evs);
    }
    Ok(())
}

/// Walks a run of relations: member ids prefix-summed, roles and kinds
/// taken from the parallel arrays, which must cover every member.
fn visit_relations<V: OsmVisitor>(
    parser: &OsmBlockParser,
    relations: &Vec<Relation>,
    visitor: &mut V,
) -> (r: Result<(), PbfParseError>)
    ensures
        ({
            let c = parser_ctx(*parser);
            let rs = relations@.map_values(|x: Relation| x@);
            let evs = relation_events(c, rs);
            &&& (r is Ok ==> final(visitor).events() == old(visitor).events() + evs
                && relations_wf(c, rs))
            &&& (r is Err ==> traversal_prefix(
                old(visitor).events(),
                final(visitor).events(),
                evs,
            ))
            &&& (!relations_wf(c, rs) ==> r is Err)
        }),
{
    let ghost c = parser_ctx(*parser);
    let ghost rs = relations@.map_values(|x: Relation| x@);
    let ghost evs = relation_events(c, rs);
    let ghost d0 = old(visitor).events();
    proof {
        assert(d0 + evs.take(0) =~= d0);
    }
    let mut i: usize = 0;
    while i < relations.len()
        invariant
            i <= relations@.len(),
            c == parser_ctx(*parser),
            rs == relations@.map_values(|x: Relation| x@),
            evs == relation_events(c, rs),
            d0 == old(visitor).events(),
            visitor.events() == d0 + evs.take(2 * i as int),
            forall|k: int| 0 <= k < i ==> relation_wf(c, #[trigger] rs[k]),
        decreases relations@.len() - i,
    {
        let relation = &relations[i];
        proof {
            assert(rs[i as int] == relations@[i as int]@);
        }
        let tags = match parser.parse_tags(&relation.keys, &relation.vals) {
            Ok(t) => t,
            Err(e) => {
                proof {
                    assert(!tags_ok(c, rs[i as int].keys, rs[i as int].vals));
                    assert(!relations_wf(c, rs));
                    let w = 2 * i as int;
                    assert(0 <= w <= evs.len());
                    assert(visitor.events() == d0 + evs.take(w));
                    assert(traversal_prefix(d0, visitor.events(), evs)) by {
                        assert(0 <= w <= evs.len() && visitor.events() == d0 + evs.take(w));
                        assert(visitor.events().len() - d0.len() == w);
                    }
                }
                return Err(e);
            },
        };
        let member_ids = delta_decode(&relation.memids);
        proof {
            crate::delta::lemma_delta_decode_len(relation.memids@, 0);
        }
        if relation.types.len() < member_ids.len() || relation.roles_sid.len()
            < member_ids.len() {
            proof {
                assert(!relation_wf(c, rs[i as int]));
                assert(!relations_wf(c, rs));
                let w = 2 * i as int;
                assert(0 <= w <= evs.len());
                assert(visitor.events() == d0 + evs.take(w));
                assert(traversal_prefix(d0, visitor.events(), evs)) by {
                    assert(0 <= w <= evs.len() && visitor.events() == d0 + evs.take(w));
                    assert(visitor.events().len() - d0.len() == w);
                }
            }
            return Err(PbfParseError::InvalidMessage);
        }
        let mut members: Vec<MemberReference> = Vec::new();
        let mut m: usize = 0;
        while m < member_ids.len()
            invariant
                m <= member_ids@.len(),
                member_ids@ == delta_decode_spec(relation.memids@, 0),
                member_ids@.len() <= relation.types@.len(),
                member_ids@.len() <= relation.roles_sid@.len(),
                members@.len() == m,
                forall|k: int|
                    0 <= k < m ==> #[trigger] members@[k] == (MemberReference {
                        id: member_ids@[k],
                        entity_type: entity_type_of_code(relation.types@[k]),
                        role_sid: relation.roles_sid@[k],
                    }),
            decreases member_ids@.len() - m,
        {
            members.push(
                MemberReference {
                    id: member_ids[m],
                    entity_type: OsmEntityType::from(relation.types[m]),
                    role_sid: relation.roles_sid[m],
                },
            );
            m += 1;
        }
        proof {
            assert(members@ =~= relation_members(rs[i as int]));
            assert(tags@.map_values(|t: (String, String)| (t.0@, t.1@)) =~= resolved_tags(
                c,
                rs[i as int].keys,
                rs[i as int].vals,
            ));
            assert(evs[2 * i as int] == relation_event(c, rs[i as int]));
            assert(evs.take(2 * i as int + 1) =~= evs.take(2 * i as int).push(
                evs[2 * i as int],
            ));
        }
        let res = visitor.visit_relation(relation.id, members, tags);
        proof {
            assert(visitor.events() =~= d0 + evs.take(2 * i as int + 1));
        }
        if let Err(e) = res {
            proof {
                let w = 2 * i as int + 1;
                assert(0 <= w <= evs.len());
                assert(visitor.events() == d0 + evs.take(w));
                assert(traversal_prefix(d0, visitor.events(), evs)) by {
                    assert(0 <= w <= evs.len() && visitor.events() == d0 + evs.take(w));
                    assert(visitor.events().len() - d0.len() == w);
                }
            }
            return Err(e);
        }
        proof {
            assert(evs[2 * i as int + 1] == info_event(rs[i as int].info, c.date_granularity));
            assert(evs.take(2 * i as int + 2) =~= evs.take(2 * i as int + 1).push(
                evs[2 * i as int + 1],
            ));
        }
        let res2 = visit_info_of(visitor, &relation.info, parser.date_granularity);
        proof {
            assert(visitor.events() =~= d0 + evs.take(2 * i as int + 2));
        }
        if let Err(e) = res2 {
            proof {
                let w = 2 * i as int + 2;
                assert(0 <= w <= evs.len());
                assert(visitor.events() == d0 + evs.take(w));
                assert(traversal_prefix(d0, visitor.events(), evs)) by {
                    assert(0 <= w <= evs.len() && visitor.events() == d0 + evs.take(w));
                    assert(visitor.events().len() - d0.len() == w);
                }
            }
            return Err(e);
        }
        i += 1;
    }
    proof {
        assert(evs.take(evs.len() as int) =~= evs);
    }
    Ok(())
}

/// Walks a dense node run: ids, coordinates and metadata are
/// prefix-summed; mismatched or short metadata arrays refuse the block
/// as malformed before any callback.
fn visit_dense_nodes<V: OsmVisitor>(
    parser: &OsmBlockParser,
    dense: &DenseNodes,
    visitor: &mut V,
) -> (r: Result<(), PbfParseError>)
    ensures
        ({
            let c = parser_ctx(*parser);
            let evs = dense_events(c, dense@);
            &&& (!dense_wf(dense@) ==> r == Err::<(), PbfParseError>(
                PbfParseError::InvalidMessage,
            ) && final(visitor).events() == old(visitor).events())
            &&& (r is Ok ==> final(visitor).events() == old(visitor).events() + evs
                && dense_wf(dense@))
            &&& (r is Err ==> traversal_prefix(
                old(visitor).events(),
                final(visitor).events(),
                evs,
            ))
        }),
{
    let ghost c = parser_ctx(*parser);
    let ghost evs = dense_events(c, dense@);
    let ghost d0 = old(visitor).events();
    proof {
        assert(d0 + evs.take(0) =~= d0);
    }
    let n = dense.id.len();
    if dense.lat.len() != n || dense.lon.len() != n {
        proof {
            assert(visitor.events() == d0 + evs.take(0));
            assert(traversal_prefix(d0, visitor.events(), evs)) by {
                assert(0 <= 0 <= evs.len() && visitor.events() == d0 + evs.take(0));
                assert(visitor.events().len() - d0.len() == 0);
            }
        }
        return Err(PbfParseError::InvalidMessage);
    }
    let ids = delta_decode(&dense.id);
    let lats = delta_decode(&dense.lat);
    let lons = delta_decode(&dense.lon);
    proof {
        crate::delta::lemma_delta_decode_len(dense.id@, 0);
        crate::delta::lemma_delta_decode_len(dense.lat@, 0);
        crate::delta::lemma_delta_decode_len(dense.lon@, 0);
    }
    let mut timestamps: Vec<i64> = Vec::new();
    let mut changesets: Vec<i64> = Vec::new();
    let mut uids: Vec<i32> = Vec::new();
    let mut sids: Vec<i32> = Vec::new();
    let has_meta: bool = match &dense.denseinfo {
        Some(di) => {
            if di.version.len() < n || di.timestamp.len() < n || di.changeset.len() < n
                || di.uid.len() < n || di.user_sid.len() < n {
                proof {
                    assert(visitor.events() == d0 + evs.take(0));
                    assert(traversal_prefix(d0, visitor.events(), evs)) by {
                        assert(0 <= 0 <= evs.len() && visitor.events() == d0 + evs.take(0));
                        assert(visitor.events().len() - d0.len() == 0);
                    }
                }
                return Err(PbfParseError::InvalidMessage);
            }
            timestamps = delta_decode(&di.timestamp);
            changesets = delta_decode(&di.changeset);
            uids = delta32_decode(&di.uid);
            sids = delta32_decode(&di.user_sid);
            proof {
                crate::delta::lemma_delta_decode_len(di.timestamp@, 0);
                crate::delta::lemma_delta_decode_len(di.changeset@, 0);
                crate::delta::lemma_delta32_decode_len(di.uid@, 0);
                crate::delta::lemma_delta32_decode_len(di.user_sid@, 0);
            }
            true
        },
        None => false,
    };
    let mut i: usize = 0;
    while i < n
        invariant
            i <= n,
            n == dense.id@.len(),
            c == parser_ctx(*parser),
            evs == dense_events(c, dense@),
            dense_wf(dense@),
            ids@ == delta_decode_spec(dense.id@, 0),
            lats@ == delta_decode_spec(dense.lat@, 0),
            lons@ == delta_decode_spec(dense.lon@, 0),
            ids@.len() == n,
            lats@.len() == n,
            lons@.len() == n,
            has_meta == (dense.denseinfo is Some),
            has_meta ==> (match dense.denseinfo {
                Some(di) => {
                    &&& timestamps@ == delta_decode_spec(di.timestamp@, 0)
                    &&& changesets@ == delta_decode_spec(di.changeset@, 0)
                    &&& uids@ == delta32_decode_spec(di.uid@, 0)
                    &&& sids@ == delta32_decode_spec(di.user_sid@, 0)
                    &&& timestamps@.len() >= n
                    &&& changesets@.len() >= n
                    &&& uids@.len() >= n
                    &&& sids@.len() >= n
                    &&& di.version@.len() >= n
                },
                None => false,
            }),
            d0 == old(visitor).events(),
            visitor.events() == d0 + evs.take(2 * i as int),
        decreases n - i,
    {
        proof {
            assert(evs[2 * i as int] == (OsmEvent::NodeSeen {
                id: ids@[i as int],
                latitude: decoded_coord(c.lat_offset, lats@[i as int], c.granularity),
                longitude: decoded_coord(c.lon_offset, lons@[i as int], c.granularity),
            }));
            assert(evs.take(2 * i as int + 1) =~= evs.take(2 * i as int).push(
                evs[2 * i as int],
            ));
        }
        let latitude = parser.get_lat(lats[i]);
        let longitude = parser.get_lon(lons[i]);
        let res = visitor.visit_node(ids[i], latitude, longitude);
        proof {
            assert(visitor.events() =~= d0 + evs.take(2 * i as int + 1));
        }
        if let Err(e) = res {
            proof {
                let w = 2 * i as int + 1;
                assert(0 <= w <= evs.len());
                assert(visitor.events() == d0 + evs.take(w));
                assert(traversal_prefix(d0, visitor.events(), evs)) by {
                    assert(0 <= w <= evs.len() && visitor.events() == d0 + evs.take(w));
                    assert(visitor.events().len() - d0.len() == w);
                }
            }
            return Err(e);
        }
        proof {
            assert(evs[2 * i as int + 1] == dense_info_event(
                dense@,
                c.date_granularity,
                i as int,
            ));
            assert(evs.take(2 * i as int + 2) =~= evs.take(2 * i as int + 1).push(
                evs[2 * i as int + 1],
            ));
        }
        let res2 = if has_meta {
            match &dense.denseinfo {
                Some(di) => {
                    let visible = if i < di.visible.len() {
                        di.visible[i]
                    } else {
                        true
                    };
                    visitor.visit_info(
                        di.version[i],
                        timestamps[i].wrapping_mul(parser.date_granularity),
                        changesets[i],
                        uids[i],
                        i32_to_u32(sids[i]),
                        visible,
                    )
                },
                None => Ok(()),
            }
        } else {
            visitor.visit_info(0, 0, 0, 0, 0, true)
        };
        proof {
            assert(visitor.events() =~= d0 + evs.take(2 * i as int + 2));
        }
        if let Err(e) = res2 {
            proof {
                let w = 2 * i as int + 2;
                assert(0 <= w <= evs.len());
                assert(visitor.events() == d0 + evs.take(w));
                assert(traversal_prefix(d0, visitor.events(), evs)) by {
                    assert(0 <= w <= evs.len() && visitor.events() == d0 + evs.take(w));
                    assert(visitor.events().len() - d0.len() == w);
                }
            }
            return Err(e);
        }
        i += 1;
    }
    proof {
        assert(evs.take(evs.len() as int) =~= evs);
    }
    Ok(())
}

/// Walks one primitive group: `visit_group`, the entity kind it holds,
/// `end_group`.
fn visit_group<V: OsmVisitor>(
    parser: &OsmBlockParser,
    group: &PrimitiveGroup,
    visitor: &mut V,
) -> (r: Result<(), PbfParseError>)
    ensures
        ({
            let c = parser_ctx(*parser);
            let evs = group_events(c, group@);
            &&& (r is Ok ==> final(visitor).events() == old(visitor).events() + evs
                && group_wf(c, group@))
            &&& (r is Err ==> traversal_prefix(
                old(visitor).events(),
                final(visitor).events(),
                evs,
            ))
            &&& (!group_wf(c, group@) ==> r is Err)
        }),
{
    let ghost c = parser_ctx(*parser);
    let ghost evs = group_events(c, group@);
    let ghost body = group_body_events(c, group@);
    let ghost d0 = old(visitor).events();
    let res = visitor.visit_group();
    proof {
        assert(evs.take(1) =~= seq![OsmEvent::GroupStarted]);
        assert(visitor.events() =~= d0 + evs.take(1));
    }
    if let Err(e) = res {
        proof {
            assert(traversal_prefix(d0, visitor.events(), evs)) by {
                assert(0 <= 1 <= evs.len() && visitor.events() == d0 + evs.take(1));
                assert(visitor.events().len() - d0.len() == 1);
            }
        }
        return Err(e);
    }
    let res2 = if group.nodes.len() > 0 {
        proof {
            assert(group@.nodes.len() > 0);
            assert(body == node_events(c, group.nodes@.map_values(|n: Node| n@)));
        }
        visit_nodes(parser, &group.nodes, visitor)
    } else if group.ways.len() > 0 {
        proof {
            assert(body == way_events(c, group.ways@.map_values(|w: Way| w@)));
        }
        visit_ways(parser, &group.ways, visitor)
    } else if group.relations.len() > 0 {
        proof {
            assert(body == relation_events(c, group.relations@.map_values(|x: Relation| x@)));
        }
        visit_relations(parser, &group.relations, visitor)
    } else {
        match &group.dense {
            Some(d) => {
                proof {
                    assert(body == dense_events(c, d@));
                }
                visit_dense_nodes(parser, d, visitor)
            },
            None => Ok(()),
        }
    };
    proof {
        if res2 is Ok {
            assert(visitor.events() =~= d0 + evs.take(1 + body.len() as int));
        }
    }
    match res2 {
        Ok(()) => {},
        Err(e) => {
            proof {
                assert(traversal_prefix(d0 + evs.take(1), visitor.events(), body));
                let k0 = visitor.events().len() - (d0 + evs.take(1)).len();
                assert(visitor.events() == (d0 + evs.take(1)) + body.take(k0));
                assert(visitor.events() =~= d0 + evs.take(1 + k0));
                assert(traversal_prefix(d0, visitor.events(), evs)) by {
                    assert(0 <= 1 + k0 <= evs.len() && visitor.events() == d0 + evs.take(
                        1 + k0,
                    ));
                    assert(visitor.events().len() - d0.len() == 1 + k0);
                }
            }
            return Err(e);
        },
    }
    let res3 = visitor.end_group();
    proof {
        assert(visitor.events() =~= d0 + evs);
        assert(evs.take(evs.len() as int) =~= evs);
        assert(traversal_prefix(d0, visitor.events(), evs)) by {
            assert(visitor.events() == d0 + evs.take(evs.len() as int));
            assert(visitor.events().len() - d0.len() == evs.len());
        }
    }
    match res3 {
        Ok(()) => Ok(()),
        Err(e) => Err(e),
    }
}

/// Dispatches one decoded blob: a header blob goes to `visit_header`, a
/// data blob is decoded as a primitive block and traversed, delivering
/// exactly the block's callback sequence when every callback accepts.
pub fn visit_osm_blob<V: OsmVisitor>(blob: &Blob, visitor: &mut V) -> (r: Result<
    (),
    PbfParseError,
>)
    ensures
        ({
            let d0 = old(visitor).events();
            match blob.data_type {
                BlobType::HEADER => final(visitor).events() == d0.push(
                    OsmEvent::HeaderSeen { data: blob.data@ },
                ),
                BlobType::DATA => match crate::osmformat::block_parse(
                    blob.data@,
                    0,
                    blob.data@.len() as int,
                ) {
                    None => r == Err::<(), PbfParseError>(PbfParseError::InvalidMessage)
                        && final(visitor).events() == d0,
                    Some(bm) => {
                        let evs = block_events(bm);
                        &&& (r is Ok ==> final(visitor).events() == d0 + evs
                            && block_traversal_wf(bm))
                        &&& (r is Err ==> traversal_prefix(
                            d0,
                            final(visitor).events(),
                            evs,
                        ))
                        &&& (!block_traversal_wf(bm) ==> r is Err)
                    },
                },
            }
        }),
{
    match blob.data_type {
        BlobType::HEADER => {
            let header = HeaderBlock { data: vstd::slice::slice_to_vec(blob.data.as_slice()) };
            visitor.visit_header(&header)
        },
        BlobType::DATA => {
            let block = match parse_block(blob.data.as_slice(), 0, blob.data.len()) {
                Some(b) => b,
                None => {
                    return Err(PbfParseError::InvalidMessage);
                },
            };
            let ghost bm = block@;
            let ghost c = block_ctx(bm);
            let ghost evs = block_events(bm);
            let ghost d0 = old(visitor).events();
            let parser = OsmBlockParser::new(&block);
            proof {
                assert(parser_ctx(parser) =~= c);
            }
            let res = visitor.visit_block(
                block.lat_offset,
                block.lon_offset,
                block.granularity,
                block.date_granularity,
            );
            proof {
                assert(evs.take(1) =~= seq![
                    OsmEvent::BlockStarted {
                        lat_offset: bm.lat_offset,
                        lon_offset: bm.lon_offset,
                        granularity: bm.granularity,
                        date_granularity: bm.date_granularity,
                    },
                ]);
                assert(visitor.events() =~= d0 + evs.take(1));
            }
            if let Err(e) = res {
                proof {
                    assert(traversal_prefix(d0, visitor.events(), evs)) by {
                        assert(0 <= 1 <= evs.len() && visitor.events() == d0 + evs.take(1));
                        assert(visitor.events().len() - d0.len() == 1);
                    }
                }
                return Err(e);
            }
            let res2 = visitor.visit_string_table(&parser.strings);
            proof {
                assert(evs.take(2) =~= evs.take(1).push(
                    OsmEvent::StringTableSeen { strings: c.strings },
                ));
                assert(visitor.events() =~= d0 + evs.take(2));
            }
            if let Err(e) = res2 {
                proof {
                    assert(traversal_prefix(d0, visitor.events(), evs)) by {
                        assert(0 <= 2 <= evs.len() && visitor.events() == d0 + evs.take(2));
                        assert(visitor.events().len() - d0.len() == 2);
                    }
                }
                return Err(e);
            }
            let ghost gs = bm.groups;
            let mut i: usize = 0;
            proof {
                assert(gs.take(0) =~= Seq::<PrimitiveGroupModel>::empty());
                assert(visitor.events() =~= d0 + evs.take(2) + groups_events(c, gs.take(0)));
            }
            while i < block.groups.len()
                invariant
                    i <= block.groups@.len(),
                    blob.data_type is DATA,
                    crate::osmformat::block_parse(blob.data@, 0, blob.data@.len() as int)
                        == Some(bm),
                    bm == block@,
                    c == block_ctx(bm),
                    evs == block_events(bm),
                    gs == bm.groups,
                    parser_ctx(parser) == c,
                    d0 == old(visitor).events(),
                    gs.len() == block.groups@.len(),
                    visitor.events() == d0 + evs.take(2) + groups_events(c, gs.take(i as int)),
                    forall|k: int| 0 <= k < i ==> group_wf(c, #[trigger] gs[k]),
                decreases block.groups@.len() - i,
            {
                let ghost pre = evs.take(2) + groups_events(c, gs.take(i as int));
                let ghost gevs = group_events(c, gs[i as int]);
                proof {
                    assert(block.groups@[i as int]@ == gs[i as int]);
                    lemma_groups_events_push(c, gs.take(i as int), gs[i as int]);
                    assert(gs.take(i as int).push(gs[i as int]) =~= gs.take(i as int + 1));
                    lemma_groups_events_prefix(c, gs, i as int + 1);
                    assert(pre + gevs =~= evs.take(2) + groups_events(c, gs.take(i as int + 1)));
                    vstd::seq_lib::lemma_concat_associative(
                        d0,
                        evs.take(2),
                        groups_events(c, gs.take(i as int)),
                    );
                    assert(visitor.events() == d0 + pre);
                    vstd::seq_lib::lemma_concat_associative(
                        d0,
                        evs.take(2),
                        groups_events(c, gs.take(i as int + 1)),
                    );
                }
                let res3 = visit_group(&parser, &block.groups[i], visitor);
                match res3 {
                    Ok(()) => {},
                    Err(e) => {
                        proof {
                            assert(traversal_prefix(d0 + pre, visitor.events(), gevs));
                            let k0 = visitor.events().len() - (d0 + pre).len();
                            assert(visitor.events() == (d0 + pre) + gevs.take(k0));
                            let kk = 2 + groups_events(c, gs.take(i as int)).len() + k0;
                            assert(visitor.events() =~= d0 + evs.take(kk as int));
                            assert(kk <= evs.len());
                            assert(traversal_prefix(d0, visitor.events(), evs)) by {
                                assert(0 <= kk <= evs.len() && visitor.events() == d0
                                    + evs.take(kk as int));
                                assert(visitor.events().len() - d0.len() == kk);
                            }
                        }
                        return Err(e);
                    },
                }
                i += 1;
            }
            proof {
                assert(gs.take(gs.len() as int) =~= gs);
            }
            let res4 = visitor.end_block();
            proof {
                assert(visitor.events() =~= d0 + evs);
                assert(evs.take(evs.len() as int) =~= evs);
                assert(traversal_prefix(d0, visitor.events(), evs)) by {
                    assert(visitor.events() == d0 + evs.take(evs.len() as int));
                    assert(visitor.events().len() - d0.len() == evs.len());
                }
            }
            match res4 {
                Ok(()) => Ok(()),
                Err(e) => Err(e),
            }
        },
    }
}

/// The events of the first `i` groups are a prefix of the whole group
/// run's events.
proof fn lemma_groups_events_prefix(c: BlockCtx, gs: Seq<PrimitiveGroupModel>, i: int)
    requires
        0 <= i <= gs.len(),
    ensures
        groups_events(c, gs.take(i)).len() <= groups_events(c, gs).len(),
        forall|j: int|
            0 <= j < groups_events(c, gs.take(i)).len() ==> #[trigger] groups_events(c, gs)[j]
                == groups_events(c, gs.take(i))[j],
    decreases i,
{
    if i > 0 {
        lemma_groups_events_push(c, gs.take(i - 1), gs[i - 1]);
        assert(gs.take(i - 1).push(gs[i - 1]) =~= gs.take(i));
        lemma_groups_events_prefix(c, gs, i - 1);
        lemma_groups_events_split(c, gs, i - 1);
    }
}

/// Splitting a group run splits its events.
proof fn lemma_groups_events_split(c: BlockCtx, gs: Seq<PrimitiveGroupModel>, i: int)
    requires
        0 <= i < gs.len(),
    ensures
        groups_events(c, gs) == groups_events(c, gs.take(i + 1)) + groups_events(
            c,
            gs.skip(i + 1),
        ),
    decreases i,
{
    if i == 0 {
        assert(gs.take(1)[0] == gs[0]);
        assert(gs.take(1).drop_first() =~= Seq::<PrimitiveGroupModel>::empty());
        assert(groups_events(c, gs.take(1)) == group_events(c, gs[0]) + groups_events(
            c,
            gs.take(1).drop_first(),
        ));
        assert(groups_events(c, gs.take(1)) =~= group_events(c, gs[0]));
        assert(gs.drop_first() =~= gs.skip(1));
        assert(groups_events(c, gs) == group_events(c, gs[0]) + groups_events(
            c,
            gs.drop_first(),
        ));
    } else {
        lemma_groups_events_split(c, gs, i - 1);
        lemma_groups_events_push(c, gs.take(i), gs[i]);
        assert(gs.take(i).push(gs[i]) =~= gs.take(i + 1));
        let head = gs.skip(i);
        assert(head[0] == gs[i]);
        assert(head.drop_first() =~= gs.skip(i + 1));
        assert(groups_events(c, head) == group_events(c, gs[i]) + groups_events(
            c,
            head.drop_first(),
        ));
        assert(groups_events(c, gs.take(i)) + groups_events(c, gs.skip(i)) =~= groups_events(
            c,
            gs.take(i + 1),
        ) + groups_events(c, gs.skip(i + 1)));
    }
}

/// Reads a whole file, dispatching OSM-level callbacks for every block
/// and entity. Each `accept` starts over at the beginning of the same
/// bytes, so one reader serves several passes.
pub struct OsmReader {
    reader: BlobReader,
}

impl View for OsmReader {
    type V = Seq<u8>;

    closed spec fn view(&self) -> Seq<u8> {
        self.reader@
    }
}

impl OsmReader {
    /// Wraps a blob reader.
    pub fn from(reader: BlobReader) -> (r: OsmReader)
        ensures
            r@ == reader@,
    {
        OsmReader { reader }
    }

    /// Walks the file once: every blob is decoded and traversed; errors
    /// go to the visitor's `handle_error`, which says whether to stop;
    /// `end` closes the walk. The input is left as it was, so a second
    /// `accept` sees the same file. On empty input the visitor sees
    /// nothing but its `end` callback (and one `handle_error` if that
    /// `end` itself fails).
    pub fn accept<V: OsmVisitor>(&mut self, visitor: &mut V)
        ensures
            *final(self) == *old(self),
            old(visitor).events().is_prefix_of(final(visitor).events()),
            old(self)@.len() == 0 ==> ({
                let dn = final(visitor).events();
                let d0 = old(visitor).events();
                &&& d0.len() < dn.len() <= d0.len() + 2
                &&& (dn[d0.len() as int] matches OsmEvent::Ended { result })
                &&& (dn.len() == d0.len() + 2 ==> ((dn[
                    d0.len() as int
                ] matches OsmEvent::Ended { result } && result is Err) && dn[
                    d0.len() as int + 1
                ] is ErrorSeen))
            }),
    {
        let ghost d0 = old(visitor).events();
        let ghost il = self@.len();
        let r = self.try_accept(visitor);
        match r {
            Err(e) => {
                let stop = visitor.handle_error(&e);
                proof {
                    assert(visitor.events().take(d0.len() as int) =~= d0);
                    if il == 0 {
                        assert(visitor.events() == d0.push(
                            OsmEvent::Ended { result: Err(e) },
                        ).push(OsmEvent::ErrorSeen { error: e, stop }));
                        assert(visitor.events().len() == d0.len() + 2);
                        assert(visitor.events()[d0.len() as int] == (OsmEvent::Ended {
                            result: Err(e),
                        }));
                        assert(visitor.events()[d0.len() as int + 1] == (OsmEvent::ErrorSeen {
                            error: e,
                            stop,
                        }));
                    }
                }
            },
            _ => {
                proof {
                    assert(visitor.events().take(d0.len() as int) =~= d0);
                }
            },
        }
    }

    fn try_accept<V: OsmVisitor>(&mut self, visitor: &mut V) -> (r: Result<(), PbfParseError>)
        ensures
            *final(self) == *old(self),
            ({
                let d0 = old(visitor).events();
                let dn = final(visitor).events();
                &&& dn.len() > d0.len()
                &&& dn.take(d0.len() as int) == d0
                &&& dn.last() == OsmEvent::Ended { result: r }
                &&& (old(self)@.len() == 0 ==> dn == d0.push(OsmEvent::Ended { result: r }))
            }),
    {
        let ghost d0 = old(visitor).events();
        let data = self.reader.input();
        let mut pos: usize = 0;
        loop
            invariant
                pos <= data@.len(),
                data@ == old(self)@,
                *self == *old(self),
                d0 == old(visitor).events(),
                d0.len() <= visitor.events().len(),
                visitor.events().take(d0.len() as int) == d0,
                old(self)@.len() == 0 ==> visitor.events() == d0,
            decreases data@.len() - pos,
        {
            let (result, resume) = Blob::parse_advancing(data, pos);
            match result {
                Err(PbfParseError::Eof) => {
                    break ;
                },
                Err(ref e) => {
                    let stop = visitor.handle_error(e);
                    proof {
                        assert(visitor.events().take(d0.len() as int) =~= d0);
                    }
                    if stop {
                        break ;
                    }
                    pos = resume;
                },
                Ok((blob, _next)) => {
                    let res = visit_osm_blob(&blob, visitor);
                    proof {
                        assert(visitor.events().take(d0.len() as int) =~= d0);
                    }
                    match res {
                        Err(ref e) => {
                            let stop = visitor.handle_error(e);
                            proof {
                                assert(visitor.events().take(d0.len() as int) =~= d0);
                            }
                            if stop {
                                break ;
                            }
                        },
                        Ok(()) => {},
                    }
                    pos = resume;
                },
            }
        }
        let r = visitor.end();
        proof {
            assert(visitor.events().take(d0.len() as int) =~= d0);
        }
        r
    }
}

} // verus!
