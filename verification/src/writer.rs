//! The encoding block builder: entities accumulate until a count
//! threshold, then seal into one self-contained primitive block with its
//! own string table, derived coordinate origin, and delta-coded arrays.

use vstd::prelude::*;
use vstd::utf8::encode_utf8;
use crate::delta::delta_encode;
use crate::delta::delta_encode_spec;
use crate::osm::{EntityInfo, MemberReference, NodeReference, entity_type_code};
use crate::osmformat::{
    deep_bytes, DenseInfo, DenseInfoModel, DenseNodes, DenseNodesModel, Info, PrimitiveBlock,
    PrimitiveBlockModel, PrimitiveGroup, PrimitiveGroupModel, Relation, RelationModel, Way,
    WayModel, info_init,
};
use crate::delta::{delta32_encode, delta32_encode_spec};
use crate::blob::Blob;
use crate::blob::BlobType;
use crate::error::PbfParseError;
use crate::osm::HeaderBlock;
use crate::strings::string_to_bytes;
use crate::wire::bytes_eq;
use crate::wire::u32_as_i32;
use crate::wire::u32_to_i32;

verus! {

/// Greatest number of entities one block holds.
pub const MAX_ENTITY_COUNT: usize = 8000;

/// Greatest number of tags one entity may carry: with the entity bound
/// it keeps every string-table index within the 32-bit range the wire
/// format gives indices.
pub const MAX_TAGS_PER_ENTITY: usize = 65536;

/// Coordinate magnitude bound, far beyond any real latitude or
/// longitude in nanodegrees: it keeps the offset/granularity arithmetic
/// of a sealed block within `i64`.
pub const MAX_COORDINATE: i64 = 0x4000_0000_0000_0000;

/// A pending node: quantized coordinates in nanodegrees.
#[derive(Debug, Copy, Clone, PartialEq, Eq, Structural)]
pub struct NodeEntity {
    pub id: i64,
    pub latitude: i64,
    pub longitude: i64,
    pub info: EntityInfo,
}

/// A pending way.
pub struct WayEntity {
    pub id: i64,
    pub nodes: Vec<NodeReference>,
    pub tags: Vec<(String, String)>,
    pub info: EntityInfo,
}

#[verifier::ext_equal]
pub struct WayEntityModel {
    pub id: i64,
    pub nodes: Seq<NodeReference>,
    pub tags: Seq<(Seq<char>, Seq<char>)>,
    pub info: EntityInfo,
}

impl View for WayEntity {
    type V = WayEntityModel;

    open spec fn view(&self) -> WayEntityModel {
        WayEntityModel {
            id: self.id,
            nodes: self.nodes@,
            tags: self.tags@.map_values(|t: (String, String)| (t.0@, t.1@)),
            info: self.info,
        }
    }
}

/// A pending relation.
pub struct RelationEntity {
    pub id: i64,
    pub members: Vec<MemberReference>,
    pub tags: Vec<(String, String)>,
    pub info: EntityInfo,
}

#[verifier::ext_equal]
pub struct RelationEntityModel {
    pub id: i64,
    pub members: Seq<MemberReference>,
    pub tags: Seq<(Seq<char>, Seq<char>)>,
    pub info: EntityInfo,
}

impl View for RelationEntity {
    type V = RelationEntityModel;

    open spec fn view(&self) -> RelationEntityModel {
        RelationEntityModel {
            id: self.id,
            members: self.members@,
            tags: self.tags@.map_values(|t: (String, String)| (t.0@, t.1@)),
            info: self.info,
        }
    }
}

/// The coordinate frame a sealed block is packed against.
#[derive(Debug, Copy, Clone, PartialEq, Eq, Structural)]
pub struct PackInfo {
    pub lat_offset: i64,
    pub lon_offset: i64,
    pub granularity: i64,
    pub date_granularity: i64,
}

/// Appends `b` unless the table already holds it.
pub open spec fn push_unique(t: Seq<Seq<u8>>, b: Seq<u8>) -> Seq<Seq<u8>> {
    if t.contains(b) {
        t
    } else {
        t.push(b)
    }
}

pub proof fn lemma_push_unique_facts(t: Seq<Seq<u8>>, b: Seq<u8>)
    ensures
        push_unique(t, b).contains(b),
        forall|c: Seq<u8>| t.contains(c) ==> #[trigger] push_unique(t, b).contains(c),
        t.len() <= push_unique(t, b).len() <= t.len() + 1,
        forall|i: int| 0 <= i < t.len() ==> push_unique(t, b)[i] == t[i],
{
    let u = push_unique(t, b);
    if !t.contains(b) {
        assert(u[t.len() as int] == b);
        assert(u.contains(b));
        assert forall|c: Seq<u8>| t.contains(c) implies #[trigger] u.contains(c) by {
            let i = choose|i: int| 0 <= i < t.len() && t[i] == c;
            assert(u[i] == c);
        }
    }
}

/// Keeps the table's entries unique and its first entry empty.
pub proof fn lemma_push_unique_wf(t: Seq<Seq<u8>>, b: Seq<u8>)
    requires
        forall|i: int, j: int| 0 <= i < j < t.len() ==> t[i] != t[j],
    ensures
        forall|i: int, j: int|
            0 <= i < j < push_unique(t, b).len() ==> push_unique(t, b)[i] != push_unique(
                t,
                b,
            )[j],
{
    let u = push_unique(t, b);
    if !t.contains(b) {
        assert forall|i: int, j: int| 0 <= i < j < u.len() implies u[i] != u[j] by {
            if j == t.len() {
                assert(u[j] == b);
                assert(u[i] == t[i]);
                if t[i] == b {
                    assert(t.contains(b));
                }
            }
        }
    }
}

/// The table after recording one tag list, keys and values interleaved.
pub open spec fn table_after_tags(t: Seq<Seq<u8>>, tags: Seq<(Seq<char>, Seq<char>)>) -> Seq<
    Seq<u8>,
>
    decreases tags.len(),
{
    if tags.len() == 0 {
        t
    } else {
        table_after_tags(
            push_unique(push_unique(t, encode_utf8(tags[0].0)), encode_utf8(tags[0].1)),
            tags.drop_first(),
        )
    }
}

/// The table after recording every way's tags.
pub open spec fn table_after_ways(t: Seq<Seq<u8>>, ws: Seq<WayEntityModel>) -> Seq<Seq<u8>>
    decreases ws.len(),
{
    if ws.len() == 0 {
        t
    } else {
        table_after_ways(table_after_tags(t, ws[0].tags), ws.drop_first())
    }
}

/// The table after recording every relation's tags.
pub open spec fn table_after_relations(t: Seq<Seq<u8>>, rs: Seq<RelationEntityModel>) -> Seq<
    Seq<u8>,
>
    decreases rs.len(),
{
    if rs.len() == 0 {
        t
    } else {
        table_after_relations(table_after_tags(t, rs[0].tags), rs.drop_first())
    }
}

/// The string table a sealed block carries: the reserved empty entry,
/// then every tag key and value of the pending ways and relations, in
/// first-occurrence order.
pub open spec fn block_table(ws: Seq<WayEntityModel>, rs: Seq<RelationEntityModel>) -> Seq<
    Seq<u8>,
> {
    table_after_relations(table_after_ways(seq![Seq::<u8>::empty()], ws), rs)
}

pub proof fn lemma_table_after_tags_push(
    t: Seq<Seq<u8>>,
    tags: Seq<(Seq<char>, Seq<char>)>,
    x: (Seq<char>, Seq<char>),
)
    ensures
        table_after_tags(t, tags.push(x)) == push_unique(
            push_unique(table_after_tags(t, tags), encode_utf8(x.0)),
            encode_utf8(x.1),
        ),
    decreases tags.len(),
{
    let u = tags.push(x);
    if tags.len() == 0 {
        assert(u[0] == x);
        assert(u.drop_first() =~= Seq::<(Seq<char>, Seq<char>)>::empty());
        let t2 = push_unique(push_unique(t, encode_utf8(x.0)), encode_utf8(x.1));
        assert(table_after_tags(t, u) == table_after_tags(t2, u.drop_first()));
        assert(table_after_tags(t2, u.drop_first()) == t2);
        assert(table_after_tags(t, tags) == t);
    } else {
        assert(u[0] == tags[0]);
        assert(u.drop_first() =~= tags.drop_first().push(x));
        let t2 = push_unique(push_unique(t, encode_utf8(tags[0].0)), encode_utf8(tags[0].1));
        lemma_table_after_tags_push(t2, tags.drop_first(), x);
        assert(table_after_tags(t, u) == table_after_tags(t2, u.drop_first()));
        assert(table_after_tags(t, tags) == table_after_tags(t2, tags.drop_first()));
    }
}

pub proof fn lemma_table_after_ways_push(
    t: Seq<Seq<u8>>,
    ws: Seq<WayEntityModel>,
    w: WayEntityModel,
)
    ensures
        table_after_ways(t, ws.push(w)) == table_after_tags(table_after_ways(t, ws), w.tags),
    decreases ws.len(),
{
    let u = ws.push(w);
    if ws.len() == 0 {
        assert(u[0] == w);
        assert(u.drop_first() =~= Seq::<WayEntityModel>::empty());
        assert(table_after_ways(t, u) == table_after_ways(
            table_after_tags(t, w.tags),
            u.drop_first(),
        ));
        assert(table_after_ways(table_after_tags(t, w.tags), u.drop_first())
            == table_after_tags(t, w.tags));
        assert(table_after_ways(t, ws) == t);
    } else {
        assert(u[0] == ws[0]);
        assert(u.drop_first() =~= ws.drop_first().push(w));
        let t2 = table_after_tags(t, ws[0].tags);
        lemma_table_after_ways_push(t2, ws.drop_first(), w);
        assert(table_after_ways(t, u) == table_after_ways(t2, u.drop_first()));
        assert(table_after_ways(t, ws) == table_after_ways(t2, ws.drop_first()));
    }
}

pub proof fn lemma_table_after_relations_push(
    t: Seq<Seq<u8>>,
    rs: Seq<RelationEntityModel>,
    r: RelationEntityModel,
)
    ensures
        table_after_relations(t, rs.push(r)) == table_after_tags(
            table_after_relations(t, rs),
            r.tags,
        ),
    decreases rs.len(),
{
    let u = rs.push(r);
    if rs.len() == 0 {
        assert(u[0] == r);
        assert(u.drop_first() =~= Seq::<RelationEntityModel>::empty());
        assert(table_after_relations(t, u) == table_after_relations(
            table_after_tags(t, r.tags),
            u.drop_first(),
        ));
        assert(table_after_relations(table_after_tags(t, r.tags), u.drop_first())
            == table_after_tags(t, r.tags));
        assert(table_after_relations(t, rs) == t);
    } else {
        assert(u[0] == rs[0]);
        assert(u.drop_first() =~= rs.drop_first().push(r));
        let t2 = table_after_tags(t, rs[0].tags);
        lemma_table_after_relations_push(t2, rs.drop_first(), r);
        assert(table_after_relations(t, u) == table_after_relations(t2, u.drop_first()));
        assert(table_after_relations(t, rs) == table_after_relations(t2, rs.drop_first()));
    }
}

/// Recording tags only grows the table, keeps prior entries in place,
/// keeps uniqueness, and afterwards holds every recorded tag string.
pub proof fn lemma_table_after_tags_facts(t: Seq<Seq<u8>>, tags: Seq<(Seq<char>, Seq<char>)>)
    ensures
        t.len() <= table_after_tags(t, tags).len() <= t.len() + 2 * tags.len(),
        forall|i: int| 0 <= i < t.len() ==> #[trigger] table_after_tags(t, tags)[i] == t[i],
        forall|c: Seq<u8>| t.contains(c) ==> #[trigger] table_after_tags(t, tags).contains(c),
        forall|j: int|
            0 <= j < tags.len() ==> #[trigger] table_after_tags(t, tags).contains(
                encode_utf8(tags[j].0),
            ) && table_after_tags(t, tags).contains(encode_utf8(tags[j].1)),
        (forall|i: int, j: int| 0 <= i < j < t.len() ==> t[i] != t[j]) ==> (forall|
            i: int,
            j: int,
        |
            0 <= i < j < table_after_tags(t, tags).len() ==> table_after_tags(t, tags)[i]
                != table_after_tags(t, tags)[j]),
    decreases tags.len(),
{
    if tags.len() > 0 {
        let t1 = push_unique(t, encode_utf8(tags[0].0));
        let t2 = push_unique(t1, encode_utf8(tags[0].1));
        assert(table_after_tags(t, tags) == table_after_tags(t2, tags.drop_first()));
        lemma_push_unique_facts(t, encode_utf8(tags[0].0));
        lemma_push_unique_facts(t1, encode_utf8(tags[0].1));
        lemma_table_after_tags_facts(t2, tags.drop_first());
        if forall|i: int, j: int| 0 <= i < j < t.len() ==> t[i] != t[j] {
            lemma_push_unique_wf(t, encode_utf8(tags[0].0));
            lemma_push_unique_wf(t1, encode_utf8(tags[0].1));
        }
        assert forall|j: int| 0 <= j < tags.len() implies #[trigger] table_after_tags(
            t,
            tags,
        ).contains(encode_utf8(tags[j].0)) && table_after_tags(t, tags).contains(
            encode_utf8(tags[j].1),
        ) by {
            if j == 0 {
                assert(t2.contains(encode_utf8(tags[0].0)));
                assert(t2.contains(encode_utf8(tags[0].1)));
            } else {
                assert(tags.drop_first()[j - 1] == tags[j]);
            }
        }
    }
}

/// The same facts for a run of ways.
pub proof fn lemma_table_after_ways_facts(t: Seq<Seq<u8>>, ws: Seq<WayEntityModel>)
    ensures
        t.len() <= table_after_ways(t, ws).len(),
        forall|i: int| 0 <= i < t.len() ==> #[trigger] table_after_ways(t, ws)[i] == t[i],
        forall|c: Seq<u8>| t.contains(c) ==> #[trigger] table_after_ways(t, ws).contains(c),
        forall|k: int, j: int|
            0 <= k < ws.len() && 0 <= j < ws[k].tags.len() ==> #[trigger] table_after_ways(
                t,
                ws,
            ).contains(encode_utf8(ws[k].tags[j].0)) && table_after_ways(t, ws).contains(
                encode_utf8(ws[k].tags[j].1),
            ),
        (forall|i: int, j: int| 0 <= i < j < t.len() ==> t[i] != t[j]) ==> (forall|
            i: int,
            j: int,
        |
            0 <= i < j < table_after_ways(t, ws).len() ==> table_after_ways(t, ws)[i]
                != table_after_ways(t, ws)[j]),
    decreases ws.len(),
{
    if ws.len() > 0 {
        let t1 = table_after_tags(t, ws[0].tags);
        assert(table_after_ways(t, ws) == table_after_ways(t1, ws.drop_first()));
        lemma_table_after_tags_facts(t, ws[0].tags);
        lemma_table_after_ways_facts(t1, ws.drop_first());
        assert forall|k: int, j: int|
            0 <= k < ws.len() && 0 <= j < ws[k].tags.len() implies #[trigger] table_after_ways(
            t,
            ws,
        ).contains(encode_utf8(ws[k].tags[j].0)) && table_after_ways(t, ws).contains(
            encode_utf8(ws[k].tags[j].1),
        ) by {
            if k == 0 {
                assert(t1.contains(encode_utf8(ws[0].tags[j].0)));
                assert(t1.contains(encode_utf8(ws[0].tags[j].1)));
            } else {
                assert(ws.drop_first()[k - 1] == ws[k]);
            }
        }
    }
}

/// The same facts for a run of relations.
pub proof fn lemma_table_after_relations_facts(t: Seq<Seq<u8>>, rs: Seq<RelationEntityModel>)
    ensures
        t.len() <= table_after_relations(t, rs).len(),
        forall|i: int|
            0 <= i < t.len() ==> #[trigger] table_after_relations(t, rs)[i] == t[i],
        forall|c: Seq<u8>|
            t.contains(c) ==> #[trigger] table_after_relations(t, rs).contains(c),
        forall|k: int, j: int|
            0 <= k < rs.len() && 0 <= j < rs[k].tags.len() ==> #[trigger] table_after_relations(
                t,
                rs,
            ).contains(encode_utf8(rs[k].tags[j].0)) && table_after_relations(t, rs).contains(
                encode_utf8(rs[k].tags[j].1),
            ),
        (forall|i: int, j: int| 0 <= i < j < t.len() ==> t[i] != t[j]) ==> (forall|
            i: int,
            j: int,
        |
            0 <= i < j < table_after_relations(t, rs).len() ==> table_after_relations(t, rs)[i]
                != table_after_relations(t, rs)[j]),
    decreases rs.len(),
{
    if rs.len() > 0 {
        let t1 = table_after_tags(t, rs[0].tags);
        assert(table_after_relations(t, rs) == table_after_relations(t1, rs.drop_first()));
        lemma_table_after_tags_facts(t, rs[0].tags);
        lemma_table_after_relations_facts(t1, rs.drop_first());
        assert forall|k: int, j: int|
            0 <= k < rs.len() && 0 <= j < rs[k].tags.len() implies
            #[trigger] table_after_relations(t, rs).contains(encode_utf8(rs[k].tags[j].0))
                && table_after_relations(t, rs).contains(encode_utf8(rs[k].tags[j].1)) by {
            if k == 0 {
                assert(t1.contains(encode_utf8(rs[0].tags[j].0)));
                assert(t1.contains(encode_utf8(rs[0].tags[j].1)));
            } else {
                assert(rs.drop_first()[k - 1] == rs[k]);
            }
        }
    }
}

/// An insertion-ordered string table with unique entries, index 0
/// reserved for the empty string.
pub struct ReverseStringTable {
    strings: Vec<Vec<u8>>,
}

impl View for ReverseStringTable {
    type V = Seq<Seq<u8>>;

    closed spec fn view(&self) -> Seq<Seq<u8>> {
        deep_bytes(self.strings@)
    }
}

impl ReverseStringTable {
    /// Unique entries, the empty string first, and every index within
    /// the wire format's 32-bit range.
    pub open spec fn wf(&self) -> bool {
        &&& self@.len() >= 1
        &&& self@.len() <= 0x100000000
        &&& self@[0] == Seq::<u8>::empty()
        &&& forall|i: int, j: int| 0 <= i < j < self@.len() ==> self@[i] != self@[j]
    }

    /// A table holding only the reserved empty entry.
    pub fn new() -> (r: ReverseStringTable)
        ensures
            r.wf(),
            r@ == seq![Seq::<u8>::empty()],
    {
        let mut strings: Vec<Vec<u8>> = Vec::new();
        strings.push(Vec::new());
        let r = ReverseStringTable { strings };
        proof {
            assert(r@ =~= seq![Seq::<u8>::empty()]);
        }
        r
    }

    fn find(&self, b: &Vec<u8>) -> (r: Option<usize>)
        ensures
            match r {
                Some(i) => i < self@.len() && self@[i as int] == b@,
                None => forall|j: int| 0 <= j < self@.len() ==> self@[j] != b@,
            },
    {
        let mut i: usize = 0;
        while i < self.strings.len()
            invariant
                i <= self@.len(),
                self@.len() == self.strings@.len(),
                forall|j: int| 0 <= j < i ==> self@[j] != b@,
            decreases self@.len() - i,
        {
            if bytes_eq(self.strings[i].as_slice(), b.as_slice()) {
                return Some(i);
            }
            i += 1;
        }
        None
    }

    /// Records a string, unless the table already holds its bytes.
    pub fn push_string(&mut self, s: &String)
        requires
            old(self).wf(),
            old(self)@.len() < 0x100000000,
        ensures
            final(self).wf(),
            final(self)@ == push_unique(old(self)@, encode_utf8(s@)),
    {
        let b = string_to_bytes(s);
        match self.find(&b) {
            Some(_) => {
                proof {
                    assert(old(self)@.contains(encode_utf8(s@)));
                }
            },
            None => {
                proof {
                    if old(self)@.contains(encode_utf8(s@)) {
                        let i = choose|i: int|
                            0 <= i < old(self)@.len() && old(self)@[i] == encode_utf8(s@);
                        assert(false);
                    }
                    lemma_push_unique_wf(old(self)@, encode_utf8(s@));
                }
                self.strings.push(b);
                proof {
                    assert(final(self)@ =~= old(self)@.push(encode_utf8(s@)));
                }
            },
        }
    }

    /// Finds the index a string's bytes live at: exactly when the table
    /// holds them.
    pub fn lookup_string(&self, s: &String) -> (r: Option<u32>)
        requires
            self.wf(),
        ensures
            match r {
                Some(i) => (i as int) < self@.len() && self@[i as int] == encode_utf8(s@),
                None => !self@.contains(encode_utf8(s@)),
            },
    {
        let b = string_to_bytes(s);
        match self.find(&b) {
            Some(i) => Some(i as u32),
            None => {
                proof {
                    if self@.contains(encode_utf8(s@)) {
                        let i = choose|i: int|
                            0 <= i < self@.len() && self@[i] == encode_utf8(s@);
                        assert(false);
                    }
                }
                None
            },
        }
    }

    /// The table as the ordered byte strings a block stores.
    pub fn to_table(&self) -> (r: Vec<Vec<u8>>)
        ensures
            deep_bytes(r@) == self@,
    {
        let mut out: Vec<Vec<u8>> = Vec::new();
        let mut i: usize = 0;
        proof {
            assert(deep_bytes(out@) =~= self@.take(0));
        }
        while i < self.strings.len()
            invariant
                i <= self.strings@.len(),
                self@.len() == self.strings@.len(),
                deep_bytes(out@) == self@.take(i as int),
            decreases self.strings@.len() - i,
        {
            let entry = vstd::slice::slice_to_vec(self.strings[i].as_slice());
            proof {
                assert(deep_bytes(out@.push(entry)) =~= deep_bytes(out@).push(entry@));
                assert(self@.take(i as int).push(self@[i as int]) =~= self@.take(i as int + 1));
                assert(entry@ == self@[i as int]);
            }
            out.push(entry);
            i += 1;
        }
        proof {
            assert(self@.take(self@.len() as int) =~= self@);
        }
        out
    }
}

/// The least value reached folding `acc` over `s`.
pub open spec fn seq_min_acc(s: Seq<i64>, acc: i64) -> i64
    decreases s.len(),
{
    if s.len() == 0 {
        acc
    } else {
        seq_min_acc(
            s.drop_first(),
            if s[0] < acc {
                s[0]
            } else {
                acc
            },
        )
    }
}

/// The least of the values, or zero when there are none: the coordinate
/// origin a block is packed against.
pub open spec fn min_units(s: Seq<i64>) -> i64 {
    if s.len() == 0 {
        0
    } else {
        seq_min_acc(s, i64::MAX)
    }
}

pub proof fn lemma_seq_min_acc_facts(s: Seq<i64>, acc: i64)
    ensures
        seq_min_acc(s, acc) <= acc,
        forall|i: int| 0 <= i < s.len() ==> seq_min_acc(s, acc) <= s[i],
        seq_min_acc(s, acc) == acc || exists|i: int|
            0 <= i < s.len() && s[i] == seq_min_acc(s, acc),
    decreases s.len(),
{
    if s.len() > 0 {
        let acc2 = if s[0] < acc {
            s[0]
        } else {
            acc
        };
        lemma_seq_min_acc_facts(s.drop_first(), acc2);
        assert forall|i: int| 0 <= i < s.len() implies seq_min_acc(s, acc) <= s[i] by {
            if i > 0 {
                assert(s.drop_first()[i - 1] == s[i]);
            }
        }
        let m = seq_min_acc(s, acc);
        if m != acc {
            if m == acc2 {
                assert(s[0] == m);
            } else {
                let i = choose|i: int| 0 <= i < s.drop_first().len() && s.drop_first()[i] == m;
                assert(s[i + 1] == m);
            }
        }
    }
}

/// The coordinate origin is zero or one of the packed coordinates, so
/// it inherits their bounds.
pub proof fn lemma_min_units_element(s: Seq<i64>)
    ensures
        min_units(s) == 0 || exists|i: int| 0 <= i < s.len() && s[i] == min_units(s),
{
    if s.len() > 0 {
        lemma_seq_min_acc_facts(s, i64::MAX);
        if seq_min_acc(s, i64::MAX) == i64::MAX {
            lemma_min_units_le(s);
            assert(s[0] <= i64::MAX);
            assert(s[0] == min_units(s));
        }
    }
}

/// The coordinate origin never exceeds any packed coordinate.
pub proof fn lemma_min_units_le(s: Seq<i64>)
    ensures
        forall|i: int| 0 <= i < s.len() ==> min_units(s) <= s[i],
{
    if s.len() > 0 {
        lemma_seq_min_acc_facts(s, i64::MAX);
    }
}

pub open spec fn node_ids(ns: Seq<NodeEntity>) -> Seq<i64> {
    ns.map_values(|n: NodeEntity| n.id)
}

pub open spec fn node_lats(ns: Seq<NodeEntity>) -> Seq<i64> {
    ns.map_values(|n: NodeEntity| n.latitude)
}

pub open spec fn node_lons(ns: Seq<NodeEntity>) -> Seq<i64> {
    ns.map_values(|n: NodeEntity| n.longitude)
}

/// A nanodegree coordinate in block-local units: offset removed, then
/// granularity 100 divided out.
pub open spec fn local_unit(units: i64, offset: i64) -> i64 {
    (((units as int) - (offset as int)) / 100) as i64
}

pub open spec fn local_lats(ns: Seq<NodeEntity>, offset: i64) -> Seq<i64> {
    ns.map_values(|n: NodeEntity| local_unit(n.latitude, offset))
}

pub open spec fn local_lons(ns: Seq<NodeEntity>, offset: i64) -> Seq<i64> {
    ns.map_values(|n: NodeEntity| local_unit(n.longitude, offset))
}

/// A millisecond timestamp in date-granularity units, truncated toward
/// zero.
pub open spec fn scaled_timestamp(ts: i64) -> i64 {
    if ts >= 0 {
        ((ts as int) / 1000) as i64
    } else {
        (0 - ((0 - (ts as int)) / 1000)) as i64
    }
}

/// The metadata record a sealed block stores for one entity: scaled
/// when metadata is kept, the defaults otherwise.
pub open spec fn built_info(e: EntityInfo, metadata: bool) -> Info {
    if metadata {
        Info {
            version: e.version,
            timestamp: scaled_timestamp(e.timestamp),
            changeset: e.changeset,
            uid: e.uid,
            user_sid: e.user_sid,
            visible: e.visible,
        }
    } else {
        info_init()
    }
}

/// The dense metadata arrays of a sealed block: versions absolute,
/// timestamps scaled then delta-coded, the rest delta-coded, visibility
/// per entry; all empty when metadata is off.
pub open spec fn dense_info_built(ns: Seq<NodeEntity>, metadata: bool) -> DenseInfoModel {
    if metadata {
        DenseInfoModel {
            version: ns.map_values(|n: NodeEntity| n.info.version),
            timestamp: delta_encode_spec(
                ns.map_values(|n: NodeEntity| scaled_timestamp(n.info.timestamp)),
                0,
            ),
            changeset: delta_encode_spec(ns.map_values(|n: NodeEntity| n.info.changeset), 0),
            uid: delta32_encode_spec(ns.map_values(|n: NodeEntity| n.info.uid), 0),
            user_sid: delta32_encode_spec(
                ns.map_values(|n: NodeEntity| u32_as_i32(n.info.user_sid)),
                0,
            ),
            visible: ns.map_values(|n: NodeEntity| n.info.visible),
        }
    } else {
        DenseInfoModel {
            version: Seq::empty(),
            timestamp: Seq::empty(),
            changeset: Seq::empty(),
            uid: Seq::empty(),
            user_sid: Seq::empty(),
            visible: Seq::empty(),
        }
    }
}

/// What a sealed dense-node run holds of the pending nodes.
pub open spec fn dense_built(
    d: DenseNodesModel,
    ns: Seq<NodeEntity>,
    lat_off: i64,
    lon_off: i64,
    metadata: bool,
) -> bool {
    &&& d.id == delta_encode_spec(node_ids(ns), 0)
    &&& d.lat == delta_encode_spec(local_lats(ns, lat_off), 0)
    &&& d.lon == delta_encode_spec(local_lons(ns, lon_off), 0)
    &&& d.keys_vals == Seq::<i32>::empty()
    &&& d.denseinfo == (if metadata {
        Some(dense_info_built(ns, true))
    } else {
        None
    })
}

/// What a sealed way holds of a pending way, against the block's table.
pub open spec fn way_built(w: WayModel, e: WayEntityModel, t: Seq<Seq<u8>>, metadata: bool) -> bool {
    &&& w.id == e.id
    &&& w.refs == delta_encode_spec(e.nodes.map_values(|n: NodeReference| n.id), 0)
    &&& w.keys.len() == e.tags.len()
    &&& w.vals.len() == e.tags.len()
    &&& (forall|j: int|
        0 <= j < e.tags.len() ==> ((#[trigger] w.keys[j]) as int) < t.len()
            && t[w.keys[j] as int] == encode_utf8(e.tags[j].0))
    &&& (forall|j: int|
        0 <= j < e.tags.len() ==> ((#[trigger] w.vals[j]) as int) < t.len()
            && t[w.vals[j] as int] == encode_utf8(e.tags[j].1))
    &&& w.info == Some(built_info(e.info, metadata))
}

/// What a sealed relation holds of a pending relation.
pub open spec fn relation_built(
    r: RelationModel,
    e: RelationEntityModel,
    t: Seq<Seq<u8>>,
    metadata: bool,
) -> bool {
    &&& r.id == e.id
    &&& r.memids == delta_encode_spec(e.members.map_values(|m: MemberReference| m.id), 0)
    &&& r.roles_sid == e.members.map_values(|m: MemberReference| m.role_sid)
    &&& r.types == e.members.map_values(|m: MemberReference| entity_type_code(m.entity_type))
    &&& r.keys.len() == e.tags.len()
    &&& r.vals.len() == e.tags.len()
    &&& (forall|j: int|
        0 <= j < e.tags.len() ==> ((#[trigger] r.keys[j]) as int) < t.len()
            && t[r.keys[j] as int] == encode_utf8(e.tags[j].0))
    &&& (forall|j: int|
        0 <= j < e.tags.len() ==> ((#[trigger] r.vals[j]) as int) < t.len()
            && t[r.vals[j] as int] == encode_utf8(e.tags[j].1))
    &&& r.info == Some(built_info(e.info, metadata))
}

/// One when a kind of entity is pending, zero when not: the group
/// positions in a sealed block.
pub open spec fn ind(present: bool) -> int {
    if present {
        1
    } else {
        0
    }
}

/// A group holding exactly a sealed dense-node run.
pub open spec fn dense_group_ok(
    g: PrimitiveGroupModel,
    ns: Seq<NodeEntity>,
    lat_off: i64,
    lon_off: i64,
    metadata: bool,
) -> bool {
    &&& g.nodes.len() == 0
    &&& g.ways.len() == 0
    &&& g.relations.len() == 0
    &&& (g.dense matches Some(d) && dense_built(d, ns, lat_off, lon_off, metadata))
}

/// A group holding exactly the sealed ways.
pub open spec fn ways_group_ok(
    g: PrimitiveGroupModel,
    ws: Seq<WayEntityModel>,
    t: Seq<Seq<u8>>,
    metadata: bool,
) -> bool {
    &&& g.nodes.len() == 0
    &&& g.dense is None
    &&& g.relations.len() == 0
    &&& g.ways.len() == ws.len()
    &&& forall|i: int| 0 <= i < ws.len() ==> way_built(#[trigger] g.ways[i], ws[i], t, metadata)
}

/// A group holding exactly the sealed relations.
pub open spec fn relations_group_ok(
    g: PrimitiveGroupModel,
    rs: Seq<RelationEntityModel>,
    t: Seq<Seq<u8>>,
    metadata: bool,
) -> bool {
    &&& g.nodes.len() == 0
    &&& g.dense is None
    &&& g.ways.len() == 0
    &&& g.relations.len() == rs.len()
    &&& forall|i: int|
        0 <= i < rs.len() ==> relation_built(#[trigger] g.relations[i], rs[i], t, metadata)
}

/// What a sealed block holds of the batch it was sealed from: one group
/// per non-empty entity kind, nodes first, then ways, then relations.
pub open spec fn block_built(
    b: PrimitiveBlockModel,
    ns: Seq<NodeEntity>,
    ws: Seq<WayEntityModel>,
    rs: Seq<RelationEntityModel>,
    metadata: bool,
) -> bool {
    &&& b.stringtable == block_table(ws, rs)
    &&& b.granularity == 100
    &&& b.date_granularity == 1000
    &&& b.lat_offset == min_units(node_lats(ns))
    &&& b.lon_offset == min_units(node_lons(ns))
    &&& b.groups.len() == ind(ns.len() > 0) + ind(ws.len() > 0) + ind(rs.len() > 0)
    &&& (ns.len() > 0 ==> dense_group_ok(
        b.groups[0],
        ns,
        b.lat_offset,
        b.lon_offset,
        metadata,
    ))
    &&& (ws.len() > 0 ==> ways_group_ok(
        b.groups[ind(ns.len() > 0)],
        ws,
        block_table(ws, rs),
        metadata,
    ))
    &&& (rs.len() > 0 ==> relations_group_ok(
        b.groups[ind(ns.len() > 0) + ind(ws.len() > 0)],
        rs,
        block_table(ws, rs),
        metadata,
    ))
}

/// Derives the coordinate frame for the pending nodes: the least
/// latitude and longitude as origin, granularity 100, date granularity
/// 1000.
pub fn build_pack_info(nodes: &Vec<NodeEntity>) -> (r: PackInfo)
    ensures
        r.granularity == 100,
        r.date_granularity == 1000,
        r.lat_offset == min_units(node_lats(nodes@)),
        r.lon_offset == min_units(node_lons(nodes@)),
        forall|i: int|
            0 <= i < nodes@.len() ==> r.lat_offset <= (#[trigger] nodes@[i]).latitude
                && r.lon_offset <= nodes@[i].longitude,
{
    proof {
        lemma_min_units_le(node_lats(nodes@));
        lemma_min_units_le(node_lons(nodes@));
    }
    if nodes.len() == 0 {
        return PackInfo { lat_offset: 0, lon_offset: 0, granularity: 100, date_granularity:
            1000 };
    }
    let mut lat_offset: i64 = i64::MAX;
    let mut lon_offset: i64 = i64::MAX;
    let mut i: usize = 0;
    proof {
        assert(node_lats(nodes@).skip(0) =~= node_lats(nodes@));
        assert(node_lons(nodes@).skip(0) =~= node_lons(nodes@));
    }
    while i < nodes.len()
        invariant
            i <= nodes@.len(),
            nodes@.len() > 0,
            seq_min_acc(node_lats(nodes@), i64::MAX) == seq_min_acc(
                node_lats(nodes@).skip(i as int),
                lat_offset,
            ),
            seq_min_acc(node_lons(nodes@), i64::MAX) == seq_min_acc(
                node_lons(nodes@).skip(i as int),
                lon_offset,
            ),
        decreases nodes@.len() - i,
    {
        let node = nodes[i];
        proof {
            let lrest = node_lats(nodes@).skip(i as int);
            assert(lrest[0] == node.latitude);
            assert(lrest.drop_first() =~= node_lats(nodes@).skip(i as int + 1));
            let orest = node_lons(nodes@).skip(i as int);
            assert(orest[0] == node.longitude);
            assert(orest.drop_first() =~= node_lons(nodes@).skip(i as int + 1));
        }
        if node.latitude < lat_offset {
            lat_offset = node.latitude;
        }
        if node.longitude < lon_offset {
            lon_offset = node.longitude;
        }
        i += 1;
    }
    proof {
        assert(node_lats(nodes@).skip(nodes@.len() as int) =~= Seq::<i64>::empty());
        assert(node_lons(nodes@).skip(nodes@.len() as int) =~= Seq::<i64>::empty());
        assert forall|i: int| 0 <= i < nodes@.len() implies lat_offset <= (
        #[trigger] nodes@[i]).latitude && lon_offset <= nodes@[i].longitude by {
            assert(node_lats(nodes@)[i] == nodes@[i].latitude);
            assert(node_lons(nodes@)[i] == nodes@[i].longitude);
        }
    }
    PackInfo { lat_offset, lon_offset, granularity: 100, date_granularity: 1000 }
}

/// Scales a millisecond timestamp to date-granularity units.
fn scale_timestamp(ts: i64) -> (r: i64)
    ensures
        r == scaled_timestamp(ts),
{
    if ts >= 0 {
        ts / 1000
    } else {
        let n = -(ts as i128);
        (-(n / 1000)) as i64
    }
}

/// Builds the metadata record a sealed block stores for one entity.
pub fn build_info(info: EntityInfo, pack: &PackInfo, metadata: bool) -> (r: Info)
    requires
        pack.date_granularity == 1000,
    ensures
        r == built_info(info, metadata),
{
    if metadata {
        Info {
            version: info.version,
            timestamp: scale_timestamp(info.timestamp),
            changeset: info.changeset,
            uid: info.uid,
            user_sid: info.user_sid,
            visible: info.visible,
        }
    } else {
        Info { version: 0, timestamp: 0, changeset: 0, uid: 0, user_sid: 0, visible: true }
    }
}

/// Builds the dense metadata arrays for the pending nodes.
pub fn build_dense_info(nodes: &Vec<NodeEntity>, pack: &PackInfo, metadata: bool) -> (r:
    DenseInfo)
    requires
        pack.date_granularity == 1000,
    ensures
        r@ == dense_info_built(nodes@, metadata),
{
    let mut r = DenseInfo {
        version: Vec::new(),
        timestamp: Vec::new(),
        changeset: Vec::new(),
        uid: Vec::new(),
        user_sid: Vec::new(),
        visible: Vec::new(),
    };
    if !metadata {
        proof {
            assert(r@ =~= dense_info_built(nodes@, false));
        }
        return r;
    }
    let mut scaled_times: Vec<i64> = Vec::new();
    let mut changesets: Vec<i64> = Vec::new();
    let mut uids: Vec<i32> = Vec::new();
    let mut sids: Vec<i32> = Vec::new();
    let mut i: usize = 0;
    while i < nodes.len()
        invariant
            i <= nodes@.len(),
            r.version@ == nodes@.take(i as int).map_values(|n: NodeEntity| n.info.version),
            scaled_times@ == nodes@.take(i as int).map_values(
                |n: NodeEntity| scaled_timestamp(n.info.timestamp),
            ),
            changesets@ == nodes@.take(i as int).map_values(|n: NodeEntity| n.info.changeset),
            uids@ == nodes@.take(i as int).map_values(|n: NodeEntity| n.info.uid),
            sids@ == nodes@.take(i as int).map_values(
                |n: NodeEntity| u32_as_i32(n.info.user_sid),
            ),
            r.visible@ == nodes@.take(i as int).map_values(|n: NodeEntity| n.info.visible),
            r.timestamp@.len() == 0 && r.changeset@.len() == 0 && r.uid@.len() == 0
                && r.user_sid@.len() == 0,
        decreases nodes@.len() - i,
    {
        let node = nodes[i];
        proof {
            assert(nodes@.take(i as int + 1) =~= nodes@.take(i as int).push(nodes@[i as int]));
            assert(nodes@.take(i as int + 1).map_values(|n: NodeEntity| n.info.version)
                =~= nodes@.take(i as int).map_values(|n: NodeEntity| n.info.version).push(
                node.info.version,
            ));
            assert(nodes@.take(i as int + 1).map_values(
                |n: NodeEntity| scaled_timestamp(n.info.timestamp),
            ) =~= nodes@.take(i as int).map_values(
                |n: NodeEntity| scaled_timestamp(n.info.timestamp),
            ).push(scaled_timestamp(node.info.timestamp)));
            assert(nodes@.take(i as int + 1).map_values(|n: NodeEntity| n.info.changeset)
                =~= nodes@.take(i as int).map_values(|n: NodeEntity| n.info.changeset).push(
                node.info.changeset,
            ));
            assert(nodes@.take(i as int + 1).map_values(|n: NodeEntity| n.info.uid)
                =~= nodes@.take(i as int).map_values(|n: NodeEntity| n.info.uid).push(
                node.info.uid,
            ));
            assert(nodes@.take(i as int + 1).map_values(
                |n: NodeEntity| u32_as_i32(n.info.user_sid),
            ) =~= nodes@.take(i as int).map_values(
                |n: NodeEntity| u32_as_i32(n.info.user_sid),
            ).push(u32_as_i32(node.info.user_sid)));
            assert(nodes@.take(i as int + 1).map_values(|n: NodeEntity| n.info.visible)
                =~= nodes@.take(i as int).map_values(|n: NodeEntity| n.info.visible).push(
                node.info.visible,
            ));
        }
        r.version.push(node.info.version);
        scaled_times.push(scale_timestamp(node.info.timestamp));
        changesets.push(node.info.changeset);
        uids.push(node.info.uid);
        sids.push(u32_to_i32(node.info.user_sid));
        r.visible.push(node.info.visible);
        i += 1;
    }
    proof {
        assert(nodes@.take(nodes@.len() as int) =~= nodes@);
    }
    r.timestamp = delta_encode(&scaled_times);
    r.changeset = delta_encode(&changesets);
    r.uid = delta32_encode(&uids);
    r.user_sid = delta32_encode(&sids);
    proof {
        assert(r@ =~= dense_info_built(nodes@, true));
    }
    r
}

/// Builds the dense-node run for the pending nodes: absolute ids and
/// local coordinates, each delta-coded.
pub fn build_dense_nodes(nodes: &Vec<NodeEntity>, pack: &PackInfo, metadata: bool) -> (r:
    DenseNodes)
    requires
        pack.granularity == 100,
        pack.date_granularity == 1000,
        forall|i: int|
            0 <= i < nodes@.len() ==> pack.lat_offset <= (#[trigger] nodes@[i]).latitude
                && pack.lon_offset <= nodes@[i].longitude,
    ensures
        r@.id == delta_encode_spec(node_ids(nodes@), 0),
        r@.lat == delta_encode_spec(local_lats(nodes@, pack.lat_offset), 0),
        r@.lon == delta_encode_spec(local_lons(nodes@, pack.lon_offset), 0),
        r@.keys_vals == Seq::<i32>::empty(),
        dense_built(r@, nodes@, pack.lat_offset, pack.lon_offset, metadata),
{
    let mut ids: Vec<i64> = Vec::new();
    let mut lats: Vec<i64> = Vec::new();
    let mut lons: Vec<i64> = Vec::new();
    let mut i: usize = 0;
    while i < nodes.len()
        invariant
            i <= nodes@.len(),
            forall|k: int|
                0 <= k < nodes@.len() ==> pack.lat_offset <= (#[trigger] nodes@[k]).latitude
                    && pack.lon_offset <= nodes@[k].longitude,
            ids@ == node_ids(nodes@.take(i as int)),
            lats@ == local_lats(nodes@.take(i as int), pack.lat_offset),
            lons@ == local_lons(nodes@.take(i as int), pack.lon_offset),
        decreases nodes@.len() - i,
    {
        let node = nodes[i];
        let lat_diff = (node.latitude as i128) - (pack.lat_offset as i128);
        let lon_diff = (node.longitude as i128) - (pack.lon_offset as i128);
        let local_lat = (lat_diff / 100) as i64;
        let local_lon = (lon_diff / 100) as i64;
        proof {
            assert(nodes@.take(i as int + 1) =~= nodes@.take(i as int).push(nodes@[i as int]));
            assert(node_ids(nodes@.take(i as int + 1)) =~= node_ids(nodes@.take(i as int)).push(
                node.id,
            ));
            assert(local_lats(nodes@.take(i as int + 1), pack.lat_offset) =~= local_lats(
                nodes@.take(i as int),
                pack.lat_offset,
            ).push(local_unit(node.latitude, pack.lat_offset)));
            assert(local_lons(nodes@.take(i as int + 1), pack.lon_offset) =~= local_lons(
                nodes@.take(i as int),
                pack.lon_offset,
            ).push(local_unit(node.longitude, pack.lon_offset)));
            assert(local_lat == local_unit(node.latitude, pack.lat_offset));
            assert(local_lon == local_unit(node.longitude, pack.lon_offset));
        }
        ids.push(node.id);
        lats.push(local_lat);
        lons.push(local_lon);
        i += 1;
    }
    proof {
        assert(nodes@.take(nodes@.len() as int) =~= nodes@);
    }
    let id = delta_encode(&ids);
    let lat = delta_encode(&lats);
    let lon = delta_encode(&lons);
    let denseinfo = if metadata {
        Some(build_dense_info(nodes, pack, true))
    } else {
        None
    };
    DenseNodes { id, lat, lon, keys_vals: Vec::new(), denseinfo }
}

/// Builds the sealed ways: ids kept, node references delta-coded, tags
/// mapped through the block's string table.
pub fn build_ways(
    ways: &Vec<WayEntity>,
    pack: &PackInfo,
    strings: &ReverseStringTable,
    metadata: bool,
) -> (r: Vec<Way>)
    requires
        strings.wf(),
        pack.date_granularity == 1000,
        forall|k: int, j: int|
            #![trigger ways@[k]@.tags[j]]
            0 <= k < ways@.len() && 0 <= j < ways@[k]@.tags.len() ==> strings@.contains(
                encode_utf8(ways@[k]@.tags[j].0),
            ) && strings@.contains(encode_utf8(ways@[k]@.tags[j].1)),
    ensures
        r@.len() == ways@.len(),
        forall|i: int| 0 <= i < ways@.len() ==> way_built(#[trigger] r@[i]@, ways@[i]@, strings@, metadata),
{
    let mut out: Vec<Way> = Vec::new();
    let mut i: usize = 0;
    while i < ways.len()
        invariant
            i <= ways@.len(),
            out@.len() == i,
            strings.wf(),
            pack.date_granularity == 1000,
            forall|k: int, j: int|
                #![trigger ways@[k]@.tags[j]]
                0 <= k < ways@.len() && 0 <= j < ways@[k]@.tags.len() ==> strings@.contains(
                    encode_utf8(ways@[k]@.tags[j].0),
                ) && strings@.contains(encode_utf8(ways@[k]@.tags[j].1)),
            forall|k: int|
                0 <= k < i ==> way_built(#[trigger] out@[k]@, ways@[k]@, strings@, metadata),
        decreases ways@.len() - i,
    {
        let way = &ways[i];
        let mut keys: Vec<u32> = Vec::new();
        let mut vals: Vec<u32> = Vec::new();
        let mut j: usize = 0;
        while j < way.tags.len()
            invariant
                j <= way@.tags.len(),
                way@.tags.len() == way.tags@.len(),
                strings.wf(),
                way@ == ways@[i as int]@,
                0 <= i < ways@.len(),
                forall|k: int, jj: int|
                    #![trigger ways@[k]@.tags[jj]]
                    0 <= k < ways@.len() && 0 <= jj < ways@[k]@.tags.len() ==> strings@.contains(
                        encode_utf8(ways@[k]@.tags[jj].0),
                    ) && strings@.contains(encode_utf8(ways@[k]@.tags[jj].1)),
                keys@.len() == j,
                vals@.len() == j,
                forall|jj: int|
                    0 <= jj < j ==> ((#[trigger] keys@[jj]) as int) < strings@.len()
                        && strings@[keys@[jj] as int] == encode_utf8(way@.tags[jj].0),
                forall|jj: int|
                    0 <= jj < j ==> ((#[trigger] vals@[jj]) as int) < strings@.len()
                        && strings@[vals@[jj] as int] == encode_utf8(way@.tags[jj].1),
            decreases way@.tags.len() - j,
        {
            let tag = &way.tags[j];
            proof {
                assert(way@.tags[j as int].0 == way.tags@[j as int].0@);
                assert(way@.tags[j as int].1 == way.tags@[j as int].1@);
            }
            match strings.lookup_string(&tag.0) {
                Some(idx) => {
                    keys.push(idx);
                },
                None => {
                    proof {
                        assert(strings@.contains(encode_utf8(way@.tags[j as int].0)));
                        assert(false);
                    }
                },
            }
            match strings.lookup_string(&tag.1) {
                Some(idx) => {
                    vals.push(idx);
                },
                None => {
                    proof {
                        assert(strings@.contains(encode_utf8(way@.tags[j as int].1)));
                        assert(false);
                    }
                },
            }
            j += 1;
        }
        let mut ref_ids: Vec<i64> = Vec::new();
        let mut m: usize = 0;
        while m < way.nodes.len()
            invariant
                m <= way@.nodes.len(),
                way@.nodes.len() == way.nodes@.len(),
                way@ == ways@[i as int]@,
                0 <= i < ways@.len(),
                ref_ids@ == way@.nodes.take(m as int).map_values(|n: NodeReference| n.id),
            decreases way@.nodes.len() - m,
        {
            proof {
                assert(way@.nodes.take(m as int + 1) =~= way@.nodes.take(m as int).push(
                    way@.nodes[m as int],
                ));
                assert(way@.nodes.take(m as int + 1).map_values(|n: NodeReference| n.id)
                    =~= way@.nodes.take(m as int).map_values(|n: NodeReference| n.id).push(
                    way@.nodes[m as int].id,
                ));
            }
            ref_ids.push(way.nodes[m].id);
            m += 1;
        }
        proof {
            assert(way@.nodes.take(way@.nodes.len() as int) =~= way@.nodes);
        }
        let refs = delta_encode(&ref_ids);
        let info = build_info(way.info, pack, metadata);
        let built = Way { id: way.id, keys, vals, refs, info: Some(info) };
        proof {
            assert(way_built(built@, ways@[i as int]@, strings@, metadata));
        }
        out.push(built);
        i += 1;
    }
    out
}

/// Builds the sealed relations: ids kept, member ids delta-coded, roles
/// and kinds parallel, tags mapped through the block's string table.
pub fn build_relations(
    relations: &Vec<RelationEntity>,
    pack: &PackInfo,
    strings: &ReverseStringTable,
    metadata: bool,
) -> (r: Vec<Relation>)
    requires
        strings.wf(),
        pack.date_granularity == 1000,
        forall|k: int, j: int|
            #![trigger relations@[k]@.tags[j]]
            0 <= k < relations@.len() && 0 <= j < relations@[k]@.tags.len()
                ==> strings@.contains(encode_utf8(relations@[k]@.tags[j].0))
                && strings@.contains(encode_utf8(relations@[k]@.tags[j].1)),
    ensures
        r@.len() == relations@.len(),
        forall|i: int|
            0 <= i < relations@.len() ==> relation_built(
                #[trigger] r@[i]@,
                relations@[i]@,
                strings@,
                metadata,
            ),
{
    let mut out: Vec<Relation> = Vec::new();
    let mut i: usize = 0;
    while i < relations.len()
        invariant
            i <= relations@.len(),
            out@.len() == i,
            strings.wf(),
            pack.date_granularity == 1000,
            forall|k: int, j: int|
                #![trigger relations@[k]@.tags[j]]
                0 <= k < relations@.len() && 0 <= j < relations@[k]@.tags.len()
                    ==> strings@.contains(encode_utf8(relations@[k]@.tags[j].0))
                    && strings@.contains(encode_utf8(relations@[k]@.tags[j].1)),
            forall|k: int|
                0 <= k < i ==> relation_built(
                    #[trigger] out@[k]@,
                    relations@[k]@,
                    strings@,
                    metadata,
                ),
        decreases relations@.len() - i,
    {
        let relation = &relations[i];
        let mut keys: Vec<u32> = Vec::new();
        let mut vals: Vec<u32> = Vec::new();
        let mut j: usize = 0;
        while j < relation.tags.len()
            invariant
                j <= relation@.tags.len(),
                relation@.tags.len() == relation.tags@.len(),
                strings.wf(),
                relation@ == relations@[i as int]@,
                0 <= i < relations@.len(),
                forall|k: int, jj: int|
                    #![trigger relations@[k]@.tags[jj]]
                    0 <= k < relations@.len() && 0 <= jj < relations@[k]@.tags.len()
                        ==> strings@.contains(encode_utf8(relations@[k]@.tags[jj].0))
                        && strings@.contains(encode_utf8(relations@[k]@.tags[jj].1)),
                keys@.len() == j,
                vals@.len() == j,
                forall|jj: int|
                    0 <= jj < j ==> ((#[trigger] keys@[jj]) as int) < strings@.len()
                        && strings@[keys@[jj] as int] == encode_utf8(relation@.tags[jj].0),
                forall|jj: int|
                    0 <= jj < j ==> ((#[trigger] vals@[jj]) as int) < strings@.len()
                        && strings@[vals@[jj] as int] == encode_utf8(relation@.tags[jj].1),
            decreases relation@.tags.len() - j,
        {
            let tag = &relation.tags[j];
            proof {
                assert(relation@.tags[j as int].0 == relation.tags@[j as int].0@);
                assert(relation@.tags[j as int].1 == relation.tags@[j as int].1@);
            }
            match strings.lookup_string(&tag.0) {
                Some(idx) => {
                    keys.push(idx);
                },
                None => {
                    proof {
                        assert(strings@.contains(encode_utf8(relation@.tags[j as int].0)));
                        assert(false);
                    }
                },
            }
            match strings.lookup_string(&tag.1) {
                Some(idx) => {
                    vals.push(idx);
                },
                None => {
                    proof {
                        assert(strings@.contains(encode_utf8(relation@.tags[j as int].1)));
                        assert(false);
                    }
                },
            }
            j += 1;
        }
        let mut member_ids: Vec<i64> = Vec::new();
        let mut roles: Vec<i32> = Vec::new();
        let mut types: Vec<i32> = Vec::new();
        let mut m: usize = 0;
        while m < relation.members.len()
            invariant
                m <= relation@.members.len(),
                relation@.members.len() == relation.members@.len(),
                relation@ == relations@[i as int]@,
                0 <= i < relations@.len(),
                member_ids@ == relation@.members.take(m as int).map_values(
                    |x: MemberReference| x.id,
                ),
                roles@ == relation@.members.take(m as int).map_values(
                    |x: MemberReference| x.role_sid,
                ),
                types@ == relation@.members.take(m as int).map_values(
                    |x: MemberReference| entity_type_code(x.entity_type),
                ),
            decreases relation@.members.len() - m,
        {
            let member = relation.members[m];
            proof {
                let pre = relation@.members.take(m as int);
                assert(relation@.members.take(m as int + 1) =~= pre.push(
                    relation@.members[m as int],
                ));
                assert(relation@.members.take(m as int + 1).map_values(
                    |x: MemberReference| x.id,
                ) =~= pre.map_values(|x: MemberReference| x.id).push(member.id));
                assert(relation@.members.take(m as int + 1).map_values(
                    |x: MemberReference| x.role_sid,
                ) =~= pre.map_values(|x: MemberReference| x.role_sid).push(member.role_sid));
                assert(relation@.members.take(m as int + 1).map_values(
                    |x: MemberReference| entity_type_code(x.entity_type),
                ) =~= pre.map_values(|x: MemberReference| entity_type_code(x.entity_type)).push(
                    entity_type_code(member.entity_type),
                ));
            }
            member_ids.push(member.id);
            roles.push(member.role_sid);
            types.push(member.entity_type.into());
            m += 1;
        }
        proof {
            assert(relation@.members.take(relation@.members.len() as int) =~= relation@.members);
        }
        let memids = delta_encode(&member_ids);
        let info = build_info(relation.info, pack, metadata);
        let built = Relation {
            id: relation.id,
            keys,
            vals,
            roles_sid: roles,
            memids,
            types,
            info: Some(info),
        };
        proof {
            assert(relation_built(built@, relations@[i as int]@, strings@, metadata));
        }
        out.push(built);
        i += 1;
    }
    out
}

/// How many entities one group holds.
pub open spec fn group_entity_count(g: PrimitiveGroupModel) -> int {
    g.nodes.len() + (match g.dense {
        Some(d) => d.id.len() as int,
        None => 0int,
    }) + g.ways.len() + g.relations.len()
}

pub open spec fn groups_entity_count(gs: Seq<PrimitiveGroupModel>) -> int
    decreases gs.len(),
{
    if gs.len() == 0 {
        0
    } else {
        group_entity_count(gs[0]) + groups_entity_count(gs.drop_first())
    }
}

/// How many entities one block holds, over all its groups.
pub open spec fn block_entity_count(b: PrimitiveBlockModel) -> int {
    groups_entity_count(b.groups)
}

/// A sealed block holds exactly the entities of the batch it came from.
pub proof fn lemma_block_built_count(
    b: PrimitiveBlockModel,
    ns: Seq<NodeEntity>,
    ws: Seq<WayEntityModel>,
    rs: Seq<RelationEntityModel>,
    metadata: bool,
)
    requires
        block_built(b, ns, ws, rs, metadata),
    ensures
        block_entity_count(b) == ns.len() + ws.len() + rs.len(),
{
    if ns.len() > 0 {
        crate::delta::lemma_delta_encode_len(node_ids(ns), 0);
        assert(b.groups[0].dense matches Some(d) && d.id.len() == ns.len());
    }
    let gs = b.groups;
    let empty = Seq::<PrimitiveGroupModel>::empty();
    assert(groups_entity_count(empty) == 0);
    if gs.len() == 0 {
        assert(groups_entity_count(gs) == 0);
    } else if gs.len() == 1 {
        assert(gs.drop_first() =~= empty);
        assert(groups_entity_count(gs) == group_entity_count(gs[0]) + groups_entity_count(
            gs.drop_first(),
        ));
    } else if gs.len() == 2 {
        let g1 = gs.drop_first();
        assert(g1.drop_first() =~= empty);
        assert(g1[0] == gs[1]);
        assert(groups_entity_count(g1) == group_entity_count(g1[0]) + groups_entity_count(
            g1.drop_first(),
        ));
        assert(groups_entity_count(gs) == group_entity_count(gs[0]) + groups_entity_count(g1));
    } else {
        let g1 = gs.drop_first();
        let g2 = g1.drop_first();
        assert(g2.drop_first() =~= empty);
        assert(g1[0] == gs[1]);
        assert(g2[0] == gs[2]);
        assert(groups_entity_count(g2) == group_entity_count(g2[0]) + groups_entity_count(
            g2.drop_first(),
        ));
        assert(groups_entity_count(g1) == group_entity_count(g1[0]) + groups_entity_count(g2));
        assert(groups_entity_count(gs) == group_entity_count(gs[0]) + groups_entity_count(g1));
    }
}

/// Seals one batch into a self-contained block: the string table from
/// the tags, the coordinate origin from the least coordinates, and one
/// group per non-empty entity kind.
pub fn build_block(
    nodes: &Vec<NodeEntity>,
    ways: &Vec<WayEntity>,
    relations: &Vec<RelationEntity>,
    metadata: bool,
) -> (r: PrimitiveBlock)
    requires
        nodes@.len() + ways@.len() + relations@.len() <= MAX_ENTITY_COUNT + 1,
        forall|i: int|
            0 <= i < ways@.len() ==> (#[trigger] ways@[i]@).tags.len() <= MAX_TAGS_PER_ENTITY,
        forall|i: int|
            0 <= i < relations@.len() ==> (#[trigger] relations@[i]@).tags.len()
                <= MAX_TAGS_PER_ENTITY,
    ensures
        block_built(
            r@,
            nodes@,
            ways@.map_values(|w: WayEntity| w@),
            relations@.map_values(|x: RelationEntity| x@),
            metadata,
        ),
{
    let ghost ws = ways@.map_values(|w: WayEntity| w@);
    let ghost rs = relations@.map_values(|x: RelationEntity| x@);
    let ghost init = seq![Seq::<u8>::empty()];
    let mut strings = ReverseStringTable::new();
    proof {
        assert(ws.take(0) =~= Seq::<WayEntityModel>::empty());
        assert(table_after_ways(init, ws.take(0)) == init);
    }
    let mut k: usize = 0;
    while k < ways.len()
        invariant
            k <= ways@.len(),
            ws == ways@.map_values(|w: WayEntity| w@),
            ways@.len() <= MAX_ENTITY_COUNT + 1,
            forall|i: int|
                0 <= i < ways@.len() ==> (#[trigger] ways@[i]@).tags.len()
                    <= MAX_TAGS_PER_ENTITY,
            strings.wf(),
            strings@ == table_after_ways(init, ws.take(k as int)),
            strings@.len() <= 1 + 2 * k * MAX_TAGS_PER_ENTITY,
        decreases ways@.len() - k,
    {
        let way = &ways[k];
        let ghost outer = strings@;
        proof {
            assert(way@.tags.take(0) =~= Seq::<(Seq<char>, Seq<char>)>::empty());
            assert(table_after_tags(outer, way@.tags.take(0)) == outer);
        }
        let mut j: usize = 0;
        while j < way.tags.len()
            invariant
                j <= way@.tags.len(),
                way@ == ways@[k as int]@,
                0 <= k < ways@.len(),
                way@.tags.len() == way.tags@.len(),
                way@.tags.len() <= MAX_TAGS_PER_ENTITY,
                strings.wf(),
                strings@ == table_after_tags(outer, way@.tags.take(j as int)),
                strings@.len() <= outer.len() + 2 * j,
                outer.len() <= 1 + 2 * (MAX_ENTITY_COUNT as int + 1) * MAX_TAGS_PER_ENTITY,
            decreases way@.tags.len() - j,
        {
            let tag = &way.tags[j];
            proof {
                assert(way@.tags[j as int].0 == way.tags@[j as int].0@);
                assert(way@.tags[j as int].1 == way.tags@[j as int].1@);
                lemma_table_after_tags_push(
                    outer,
                    way@.tags.take(j as int),
                    way@.tags[j as int],
                );
                assert(way@.tags.take(j as int).push(way@.tags[j as int]) =~= way@.tags.take(
                    j as int + 1,
                ));
                lemma_push_unique_facts(strings@, encode_utf8(way@.tags[j as int].0));
                lemma_push_unique_facts(
                    push_unique(strings@, encode_utf8(way@.tags[j as int].0)),
                    encode_utf8(way@.tags[j as int].1),
                );
            }
            strings.push_string(&tag.0);
            strings.push_string(&tag.1);
            j += 1;
        }
        proof {
            assert(way@.tags.take(way@.tags.len() as int) =~= way@.tags);
            lemma_table_after_ways_push(init, ws.take(k as int), ws[k as int]);
            assert(ws.take(k as int).push(ws[k as int]) =~= ws.take(k as int + 1));
        }
        k += 1;
    }
    proof {
        assert(ws.take(ws.len() as int) =~= ws);
    }
    let ghost mid = strings@;
    proof {
        assert(rs.take(0) =~= Seq::<RelationEntityModel>::empty());
        assert(table_after_relations(mid, rs.take(0)) == mid);
    }
    let mut k2: usize = 0;
    while k2 < relations.len()
        invariant
            k2 <= relations@.len(),
            rs == relations@.map_values(|x: RelationEntity| x@),
            relations@.len() <= MAX_ENTITY_COUNT + 1,
            forall|i: int|
                0 <= i < relations@.len() ==> (#[trigger] relations@[i]@).tags.len()
                    <= MAX_TAGS_PER_ENTITY,
            strings.wf(),
            mid.len() <= 1 + 2 * (MAX_ENTITY_COUNT as int + 1) * MAX_TAGS_PER_ENTITY,
            strings@ == table_after_relations(mid, rs.take(k2 as int)),
            strings@.len() <= mid.len() + 2 * k2 * MAX_TAGS_PER_ENTITY,
        decreases relations@.len() - k2,
    {
        let relation = &relations[k2];
        let ghost outer = strings@;
        proof {
            assert(relation@.tags.take(0) =~= Seq::<(Seq<char>, Seq<char>)>::empty());
            assert(table_after_tags(outer, relation@.tags.take(0)) == outer);
        }
        let mut j: usize = 0;
        while j < relation.tags.len()
            invariant
                j <= relation@.tags.len(),
                relation@ == relations@[k2 as int]@,
                0 <= k2 < relations@.len(),
                relation@.tags.len() == relation.tags@.len(),
                relation@.tags.len() <= MAX_TAGS_PER_ENTITY,
                strings.wf(),
                strings@ == table_after_tags(outer, relation@.tags.take(j as int)),
                strings@.len() <= outer.len() + 2 * j,
                outer.len() <= 1 + 4 * (MAX_ENTITY_COUNT as int + 1) * MAX_TAGS_PER_ENTITY,
            decreases relation@.tags.len() - j,
        {
            let tag = &relation.tags[j];
            proof {
                assert(relation@.tags[j as int].0 == relation.tags@[j as int].0@);
                assert(relation@.tags[j as int].1 == relation.tags@[j as int].1@);
                lemma_table_after_tags_push(
                    outer,
                    relation@.tags.take(j as int),
                    relation@.tags[j as int],
                );
                assert(relation@.tags.take(j as int).push(relation@.tags[j as int])
                    =~= relation@.tags.take(j as int + 1));
                lemma_push_unique_facts(strings@, encode_utf8(relation@.tags[j as int].0));
                lemma_push_unique_facts(
                    push_unique(strings@, encode_utf8(relation@.tags[j as int].0)),
                    encode_utf8(relation@.tags[j as int].1),
                );
            }
            strings.push_string(&tag.0);
            strings.push_string(&tag.1);
            j += 1;
        }
        proof {
            assert(relation@.tags.take(relation@.tags.len() as int) =~= relation@.tags);
            lemma_table_after_relations_push(mid, rs.take(k2 as int), rs[k2 as int]);
            assert(rs.take(k2 as int).push(rs[k2 as int]) =~= rs.take(k2 as int + 1));
        }
        k2 += 1;
    }
    proof {
        assert(rs.take(rs.len() as int) =~= rs);
        assert(strings@ == block_table(ws, rs));
        lemma_table_after_ways_facts(init, ws);
        lemma_table_after_relations_facts(mid, rs);
        assert forall|k: int, j: int|
            #![trigger ways@[k]@.tags[j]]
            0 <= k < ways@.len() && 0 <= j < ways@[k]@.tags.len() implies strings@.contains(
            encode_utf8(ways@[k]@.tags[j].0),
        ) && strings@.contains(encode_utf8(ways@[k]@.tags[j].1)) by {
            assert(ws[k] == ways@[k]@);
            assert(mid.contains(encode_utf8(ws[k].tags[j].0)));
            assert(mid.contains(encode_utf8(ws[k].tags[j].1)));
        }
        assert forall|k: int, j: int|
            #![trigger relations@[k]@.tags[j]]
            0 <= k < relations@.len() && 0 <= j < relations@[k]@.tags.len()
            implies strings@.contains(encode_utf8(relations@[k]@.tags[j].0))
            && strings@.contains(encode_utf8(relations@[k]@.tags[j].1)) by {
            assert(rs[k] == relations@[k]@);
        }
    }
    let pack = build_pack_info(nodes);
    let mut groups: Vec<PrimitiveGroup> = Vec::new();
    if nodes.len() > 0 {
        let dense = build_dense_nodes(nodes, &pack, metadata);
        groups.push(
            PrimitiveGroup {
                nodes: Vec::new(),
                dense: Some(dense),
                ways: Vec::new(),
                relations: Vec::new(),
            },
        );
    }
    if ways.len() > 0 {
        let built = build_ways(ways, &pack, &strings, metadata);
        groups.push(
            PrimitiveGroup { nodes: Vec::new(), dense: None, ways: built, relations: Vec::new() },
        );
    }
    if relations.len() > 0 {
        let built = build_relations(relations, &pack, &strings, metadata);
        groups.push(
            PrimitiveGroup { nodes: Vec::new(), dense: None, ways: Vec::new(), relations: built },
        );
    }
    let table = strings.to_table();
    let block = PrimitiveBlock {
        stringtable: table,
        groups,
        granularity: 100,
        date_granularity: 1000,
        lat_offset: pack.lat_offset,
        lon_offset: pack.lon_offset,
    };
    proof {
        let gv = block.groups@.map_values(|g: PrimitiveGroup| g@);
        if nodes@.len() > 0 {
            assert(gv[0].nodes =~= Seq::<crate::osmformat::NodeModel>::empty());
            assert(gv[0].ways =~= Seq::<WayModel>::empty());
            assert(gv[0].relations =~= Seq::<RelationModel>::empty());
        }
        assert(block_built(block@, nodes@, ws, rs, metadata));
    }
    block
}

/// Accumulates entities and seals them into blocks of at most
/// `MAX_ENTITY_COUNT` entities each.
pub struct PrimitiveBlockBuilder {
    nodes: Vec<NodeEntity>,
    ways: Vec<WayEntity>,
    relations: Vec<RelationEntity>,
    completed_blocks: Vec<PrimitiveBlock>,
    write_metadata: bool,
}

impl PrimitiveBlockBuilder {
    pub closed spec fn pending_nodes(&self) -> Seq<NodeEntity> {
        self.nodes@
    }

    pub closed spec fn pending_ways(&self) -> Seq<WayEntityModel> {
        self.ways@.map_values(|w: WayEntity| w@)
    }

    pub closed spec fn pending_relations(&self) -> Seq<RelationEntityModel> {
        self.relations@.map_values(|x: RelationEntity| x@)
    }

    pub closed spec fn completed(&self) -> Seq<PrimitiveBlockModel> {
        self.completed_blocks@.map_values(|b: PrimitiveBlock| b@)
    }

    pub closed spec fn metadata(&self) -> bool {
        self.write_metadata
    }

    pub open spec fn pending_count(&self) -> int {
        self.pending_nodes().len() + self.pending_ways().len() + self.pending_relations().len() as int
    }

    /// The batch never exceeds the block bound, no pending entity
    /// carries more tags than the table can index, and every sealed
    /// block respects the entity bound.
    #[verifier::type_invariant]
    spec fn inv(&self) -> bool {
        &&& self.pending_count() < MAX_ENTITY_COUNT
        &&& forall|i: int|
            0 <= i < self.pending_ways().len() ==> (#[trigger] self.pending_ways()[i]).tags.len()
                <= MAX_TAGS_PER_ENTITY
        &&& forall|i: int|
            0 <= i < self.pending_relations().len() ==> (
            #[trigger] self.pending_relations()[i]).tags.len() <= MAX_TAGS_PER_ENTITY
        &&& forall|i: int|
            0 <= i < self.completed().len() ==> block_entity_count(
                #[trigger] self.completed()[i],
            ) <= MAX_ENTITY_COUNT
    }

    /// A builder with nothing pending and nothing sealed.
    pub fn new(write_metadata: bool) -> (r: PrimitiveBlockBuilder)
        ensures
            r.pending_nodes().len() == 0,
            r.pending_ways().len() == 0,
            r.pending_relations().len() == 0,
            r.completed().len() == 0,
            r.metadata() == write_metadata,
    {
        let r = PrimitiveBlockBuilder {
            nodes: Vec::new(),
            ways: Vec::new(),
            relations: Vec::new(),
            completed_blocks: Vec::new(),
            write_metadata,
        };
        proof {
            assert(r.pending_ways() =~= Seq::<WayEntityModel>::empty());
            assert(r.pending_relations() =~= Seq::<RelationEntityModel>::empty());
            assert(r.completed() =~= Seq::<PrimitiveBlockModel>::empty());
        }
        r
    }

    /// Seals the current batch, pending entities and all, into one new
    /// completed block; the batch empties.
    fn seal(
        nodes: &mut Vec<NodeEntity>,
        ways: &mut Vec<WayEntity>,
        relations: &mut Vec<RelationEntity>,
        completed: &mut Vec<PrimitiveBlock>,
        metadata: bool,
    )
        requires
            old(nodes)@.len() + old(ways)@.len() + old(relations)@.len() <= MAX_ENTITY_COUNT
                + 1,
            forall|i: int|
                0 <= i < old(ways)@.len() ==> (#[trigger] old(ways)@[i]@).tags.len()
                    <= MAX_TAGS_PER_ENTITY,
            forall|i: int|
                0 <= i < old(relations)@.len() ==> (#[trigger] old(relations)@[i]@).tags.len()
                    <= MAX_TAGS_PER_ENTITY,
        ensures
            final(nodes)@.len() == 0,
            final(ways)@.len() == 0,
            final(relations)@.len() == 0,
            final(completed)@.len() == old(completed)@.len() + 1,
            forall|i: int|
                0 <= i < old(completed)@.len() ==> final(completed)@[i] == #[trigger] old(
                    completed,
                )@[i],
            block_built(
                final(completed)@.last()@,
                old(nodes)@,
                old(ways)@.map_values(|w: WayEntity| w@),
                old(relations)@.map_values(|x: RelationEntity| x@),
                metadata,
            ),
    {
        let block = build_block(nodes, ways, relations, metadata);
        completed.push(block);
        nodes.clear();
        ways.clear();
        relations.clear();
    }

    /// Appends one node; a full batch seals into a block.
    pub fn append_node(&mut self, id: i64, latitude: i64, longitude: i64, info: EntityInfo)
        ensures
            final(self).metadata() == old(self).metadata(),
            ({
                let pn = old(self).pending_nodes().push(
                    NodeEntity { id, latitude, longitude, info },
                );
                if old(self).pending_count() + 1 >= MAX_ENTITY_COUNT {
                    &&& final(self).pending_count() == 0
                    &&& final(self).completed().len() == old(self).completed().len() + 1
                    &&& (forall|i: int|
                        0 <= i < old(self).completed().len() ==> final(self).completed()[i]
                            == #[trigger] old(self).completed()[i])
                    &&& block_built(
                        final(self).completed().last(),
                        pn,
                        old(self).pending_ways(),
                        old(self).pending_relations(),
                        old(self).metadata(),
                    )
                } else {
                    &&& final(self).pending_nodes() == pn
                    &&& final(self).pending_ways() == old(self).pending_ways()
                    &&& final(self).pending_relations() == old(self).pending_relations()
                    &&& final(self).completed() == old(self).completed()
                }
            }),
    {
        proof {
            use_type_invariant(&*self);
        }
        self.push_node_and_check(NodeEntity { id, latitude, longitude, info });
    }

    fn push_node_and_check(&mut self, node: NodeEntity)
        requires
            old(self).inv(),
        ensures
            final(self).metadata() == old(self).metadata(),
            ({
                let pn = old(self).pending_nodes().push(node);
                if old(self).pending_count() + 1 >= MAX_ENTITY_COUNT {
                    &&& final(self).pending_count() == 0
                    &&& final(self).completed().len() == old(self).completed().len() + 1
                    &&& (forall|i: int|
                        0 <= i < old(self).completed().len() ==> final(self).completed()[i]
                            == #[trigger] old(self).completed()[i])
                    &&& block_built(
                        final(self).completed().last(),
                        pn,
                        old(self).pending_ways(),
                        old(self).pending_relations(),
                        old(self).metadata(),
                    )
                } else {
                    &&& final(self).pending_nodes() == pn
                    &&& final(self).pending_ways() == old(self).pending_ways()
                    &&& final(self).pending_relations() == old(self).pending_relations()
                    &&& final(self).completed() == old(self).completed()
                }
            }),
    {
        let mut nodes: Vec<NodeEntity> = Vec::new();
        let mut ways: Vec<WayEntity> = Vec::new();
        let mut relations: Vec<RelationEntity> = Vec::new();
        let mut completed: Vec<PrimitiveBlock> = Vec::new();
        core::mem::swap(&mut self.nodes, &mut nodes);
        core::mem::swap(&mut self.ways, &mut ways);
        core::mem::swap(&mut self.relations, &mut relations);
        core::mem::swap(&mut self.completed_blocks, &mut completed);
        proof {
            assert(ways@.map_values(|w: WayEntity| w@) == old(self).pending_ways());
            assert(relations@.map_values(|x: RelationEntity| x@) == old(
                self,
            ).pending_relations());
            assert(completed@.map_values(|b: PrimitiveBlock| b@) == old(self).completed());
        }
        nodes.push(node);
        if nodes.len() + ways.len() + relations.len() >= MAX_ENTITY_COUNT {
            proof {
                assert forall|i: int| 0 <= i < ways@.len() implies (
                #[trigger] ways@[i]@).tags.len() <= MAX_TAGS_PER_ENTITY by {
                    assert(ways@.map_values(|w: WayEntity| w@)[i] == ways@[i]@);
                    assert(old(self).pending_ways()[i] == ways@[i]@);
                }
                assert forall|i: int| 0 <= i < relations@.len() implies (
                #[trigger] relations@[i]@).tags.len() <= MAX_TAGS_PER_ENTITY by {
                    assert(relations@.map_values(|x: RelationEntity| x@)[i] == relations@[i]@);
                    assert(old(self).pending_relations()[i] == relations@[i]@);
                }
            }
            let ghost old_completed = completed@.map_values(|b: PrimitiveBlock| b@);
            Self::seal(
                &mut nodes,
                &mut ways,
                &mut relations,
                &mut completed,
                self.write_metadata,
            );
            proof {
                let newc = completed@.map_values(|b: PrimitiveBlock| b@);
                assert(newc.len() == old_completed.len() + 1);
                assert forall|i: int| 0 <= i < old_completed.len() implies newc[i] == #[trigger]
                old_completed[i] by {}
                assert(newc.last() == completed@.last()@);
                lemma_block_built_count(
                    newc.last(),
                    old(self).pending_nodes().push(node),
                    old(self).pending_ways(),
                    old(self).pending_relations(),
                    old(self).metadata(),
                );
            }
        }
        proof {
            let wmap = ways@.map_values(|w: WayEntity| w@);
            let rmap = relations@.map_values(|x: RelationEntity| x@);
            let cmap = completed@.map_values(|b: PrimitiveBlock| b@);
            if ways@.len() == 0 {
                assert(wmap =~= Seq::<WayEntityModel>::empty());
            }
            if relations@.len() == 0 {
                assert(rmap =~= Seq::<RelationEntityModel>::empty());
            }
            assert forall|i: int| 0 <= i < wmap.len() implies (#[trigger] wmap[i]).tags.len()
                <= MAX_TAGS_PER_ENTITY by {
                assert(wmap[i] == old(self).pending_ways()[i]);
            }
            assert forall|i: int| 0 <= i < rmap.len() implies (#[trigger] rmap[i]).tags.len()
                <= MAX_TAGS_PER_ENTITY by {
                assert(rmap[i] == old(self).pending_relations()[i]);
            }
            assert forall|i: int| 0 <= i < cmap.len() implies block_entity_count(
                #[trigger] cmap[i],
            ) <= MAX_ENTITY_COUNT by {
                if i < old(self).completed().len() {
                    assert(cmap[i] == old(self).completed()[i]);
                } else {
                    assert(cmap[i] == cmap.last());
                }
            }
        }
        core::mem::swap(&mut self.nodes, &mut nodes);
        core::mem::swap(&mut self.ways, &mut ways);
        core::mem::swap(&mut self.relations, &mut relations);
        core::mem::swap(&mut self.completed_blocks, &mut completed);
    }

    /// Appends one way; a full batch seals into a block.
    pub fn append_way(
        &mut self,
        id: i64,
        nodes: Vec<NodeReference>,
        tags: Vec<(String, String)>,
        info: EntityInfo,
    )
        requires
            // With the entity bound this keeps every index of the sealed
            // block's string table within the wire format's 32-bit range.
            tags@.len() <= MAX_TAGS_PER_ENTITY,
        ensures
            final(self).metadata() == old(self).metadata(),
            ({
                let pw = old(self).pending_ways().push(
                    (WayEntity { id, nodes, tags, info })@,
                );
                if old(self).pending_count() + 1 >= MAX_ENTITY_COUNT {
                    &&& final(self).pending_count() == 0
                    &&& final(self).completed().len() == old(self).completed().len() + 1
                    &&& (forall|i: int|
                        0 <= i < old(self).completed().len() ==> final(self).completed()[i]
                            == #[trigger] old(self).completed()[i])
                    &&& block_built(
                        final(self).completed().last(),
                        old(self).pending_nodes(),
                        pw,
                        old(self).pending_relations(),
                        old(self).metadata(),
                    )
                } else {
                    &&& final(self).pending_ways() == pw
                    &&& final(self).pending_nodes() == old(self).pending_nodes()
                    &&& final(self).pending_relations() == old(self).pending_relations()
                    &&& final(self).completed() == old(self).completed()
                }
            }),
    {
        proof {
            use_type_invariant(&*self);
        }
        let way = WayEntity { id, nodes, tags, info };
        let ghost wv = way@;
        let mut nodes2: Vec<NodeEntity> = Vec::new();
        let mut ways: Vec<WayEntity> = Vec::new();
        let mut relations: Vec<RelationEntity> = Vec::new();
        let mut completed: Vec<PrimitiveBlock> = Vec::new();
        core::mem::swap(&mut self.nodes, &mut nodes2);
        core::mem::swap(&mut self.ways, &mut ways);
        core::mem::swap(&mut self.relations, &mut relations);
        core::mem::swap(&mut self.completed_blocks, &mut completed);
        proof {
            assert(ways@.push(way).map_values(|w: WayEntity| w@) =~= ways@.map_values(
                |w: WayEntity| w@,
            ).push(way@));
        }
        ways.push(way);
        if nodes2.len() + ways.len() + relations.len() >= MAX_ENTITY_COUNT {
            proof {
                assert forall|i: int| 0 <= i < ways@.len() implies (
                #[trigger] ways@[i]@).tags.len() <= MAX_TAGS_PER_ENTITY by {
                    assert(ways@.map_values(|w: WayEntity| w@)[i] == ways@[i]@);
                    if i < ways@.len() - 1 {
                        assert(old(self).pending_ways()[i] == ways@[i]@);
                    } else {
                        assert(ways@[i]@ == wv);
                    }
                }
                assert forall|i: int| 0 <= i < relations@.len() implies (
                #[trigger] relations@[i]@).tags.len() <= MAX_TAGS_PER_ENTITY by {
                    assert(relations@.map_values(|x: RelationEntity| x@)[i] == relations@[i]@);
                    assert(old(self).pending_relations()[i] == relations@[i]@);
                }
            }
            let ghost old_completed = completed@.map_values(|b: PrimitiveBlock| b@);
            Self::seal(
                &mut nodes2,
                &mut ways,
                &mut relations,
                &mut completed,
                self.write_metadata,
            );
            proof {
                let newc = completed@.map_values(|b: PrimitiveBlock| b@);
                assert(newc.last() == completed@.last()@);
                lemma_block_built_count(
                    newc.last(),
                    old(self).pending_nodes(),
                    old(self).pending_ways().push(wv),
                    old(self).pending_relations(),
                    old(self).metadata(),
                );
            }
        }
        proof {
            let wmap = ways@.map_values(|w: WayEntity| w@);
            let rmap = relations@.map_values(|x: RelationEntity| x@);
            let cmap = completed@.map_values(|b: PrimitiveBlock| b@);
            if ways@.len() == 0 {
                assert(wmap =~= Seq::<WayEntityModel>::empty());
            }
            if relations@.len() == 0 {
                assert(rmap =~= Seq::<RelationEntityModel>::empty());
            }
            assert(wv.tags.len() <= MAX_TAGS_PER_ENTITY);
            assert forall|i: int| 0 <= i < wmap.len() implies (#[trigger] wmap[i]).tags.len()
                <= MAX_TAGS_PER_ENTITY by {
                if i < wmap.len() - 1 {
                    assert(wmap[i] == old(self).pending_ways()[i]);
                } else {
                    assert(wmap[i] == wv);
                }
            }
            assert forall|i: int| 0 <= i < rmap.len() implies (#[trigger] rmap[i]).tags.len()
                <= MAX_TAGS_PER_ENTITY by {
                assert(rmap[i] == old(self).pending_relations()[i]);
            }
            assert forall|i: int| 0 <= i < cmap.len() implies block_entity_count(
                #[trigger] cmap[i],
            ) <= MAX_ENTITY_COUNT by {
                if i < old(self).completed().len() {
                    assert(cmap[i] == old(self).completed()[i]);
                } else {
                    assert(cmap[i] == cmap.last());
                }
            }
        }
        core::mem::swap(&mut self.nodes, &mut nodes2);
        core::mem::swap(&mut self.ways, &mut ways);
        core::mem::swap(&mut self.relations, &mut relations);
        core::mem::swap(&mut self.completed_blocks, &mut completed);
    }

    /// Appends one relation; a full batch seals into a block.
    pub fn append_relation(
        &mut self,
        id: i64,
        members: Vec<MemberReference>,
        tags: Vec<(String, String)>,
        info: EntityInfo,
    )
        requires
            // With the entity bound this keeps every index of the sealed
            // block's string table within the wire format's 32-bit range.
            tags@.len() <= MAX_TAGS_PER_ENTITY,
        ensures
            final(self).metadata() == old(self).metadata(),
            ({
                let pr = old(self).pending_relations().push(
                    (RelationEntity { id, members, tags, info })@,
                );
                if old(self).pending_count() + 1 >= MAX_ENTITY_COUNT {
                    &&& final(self).pending_count() == 0
                    &&& final(self).completed().len() == old(self).completed().len() + 1
                    &&& (forall|i: int|
                        0 <= i < old(self).completed().len() ==> final(self).completed()[i]
                            == #[trigger] old(self).completed()[i])
                    &&& block_built(
                        final(self).completed().last(),
                        old(self).pending_nodes(),
                        old(self).pending_ways(),
                        pr,
                        old(self).metadata(),
                    )
                } else {
                    &&& final(self).pending_relations() == pr
                    &&& final(self).pending_nodes() == old(self).pending_nodes()
                    &&& final(self).pending_ways() == old(self).pending_ways()
                    &&& final(self).completed() == old(self).completed()
                }
            }),
    {
        proof {
            use_type_invariant(&*self);
        }
        let relation = RelationEntity { id, members, tags, info };
        let ghost rv = relation@;
        let mut nodes2: Vec<NodeEntity> = Vec::new();
        let mut ways: Vec<WayEntity> = Vec::new();
        let mut relations: Vec<RelationEntity> = Vec::new();
        let mut completed: Vec<PrimitiveBlock> = Vec::new();
        core::mem::swap(&mut self.nodes, &mut nodes2);
        core::mem::swap(&mut self.ways, &mut ways);
        core::mem::swap(&mut self.relations, &mut relations);
        core::mem::swap(&mut self.completed_blocks, &mut completed);
        proof {
            assert(relations@.push(relation).map_values(|x: RelationEntity| x@)
                =~= relations@.map_values(|x: RelationEntity| x@).push(relation@));
        }
        relations.push(relation);
        if nodes2.len() + ways.len() + relations.len() >= MAX_ENTITY_COUNT {
            proof {
                assert forall|i: int| 0 <= i < ways@.len() implies (
                #[trigger] ways@[i]@).tags.len() <= MAX_TAGS_PER_ENTITY by {
                    assert(ways@.map_values(|w: WayEntity| w@)[i] == ways@[i]@);
                    assert(old(self).pending_ways()[i] == ways@[i]@);
                }
                assert forall|i: int| 0 <= i < relations@.len() implies (
                #[trigger] relations@[i]@).tags.len() <= MAX_TAGS_PER_ENTITY by {
                    assert(relations@.map_values(|x: RelationEntity| x@)[i] == relations@[i]@);
                    if i < relations@.len() - 1 {
                        assert(old(self).pending_relations()[i] == relations@[i]@);
                    } else {
                        assert(relations@[i]@ == rv);
                    }
                }
            }
            let ghost old_completed = completed@.map_values(|b: PrimitiveBlock| b@);
            Self::seal(
                &mut nodes2,
                &mut ways,
                &mut relations,
                &mut completed,
                self.write_metadata,
            );
            proof {
                let newc = completed@.map_values(|b: PrimitiveBlock| b@);
                assert(newc.last() == completed@.last()@);
                lemma_block_built_count(
                    newc.last(),
                    old(self).pending_nodes(),
                    old(self).pending_ways(),
                    old(self).pending_relations().push(rv),
                    old(self).metadata(),
                );
            }
        }
        proof {
            let wmap = ways@.map_values(|w: WayEntity| w@);
            let rmap = relations@.map_values(|x: RelationEntity| x@);
            let cmap = completed@.map_values(|b: PrimitiveBlock| b@);
            if ways@.len() == 0 {
                assert(wmap =~= Seq::<WayEntityModel>::empty());
            }
            if relations@.len() == 0 {
                assert(rmap =~= Seq::<RelationEntityModel>::empty());
            }
            assert(rv.tags.len() <= MAX_TAGS_PER_ENTITY);
            assert forall|i: int| 0 <= i < wmap.len() implies (#[trigger] wmap[i]).tags.len()
                <= MAX_TAGS_PER_ENTITY by {
                assert(wmap[i] == old(self).pending_ways()[i]);
            }
            assert forall|i: int| 0 <= i < rmap.len() implies (#[trigger] rmap[i]).tags.len()
                <= MAX_TAGS_PER_ENTITY by {
                if i < rmap.len() - 1 {
                    assert(rmap[i] == old(self).pending_relations()[i]);
                } else {
                    assert(rmap[i] == rv);
                }
            }
            assert forall|i: int| 0 <= i < cmap.len() implies block_entity_count(
                #[trigger] cmap[i],
            ) <= MAX_ENTITY_COUNT by {
                if i < old(self).completed().len() {
                    assert(cmap[i] == old(self).completed()[i]);
                } else {
                    assert(cmap[i] == cmap.last());
                }
            }
        }
        core::mem::swap(&mut self.nodes, &mut nodes2);
        core::mem::swap(&mut self.ways, &mut ways);
        core::mem::swap(&mut self.relations, &mut relations);
        core::mem::swap(&mut self.completed_blocks, &mut completed);
    }

    /// How many entities wait in the current batch.
    pub fn get_entity_count(&self) -> (r: usize)
        ensures
            r == self.pending_count(),
    {
        proof {
            use_type_invariant(&*self);
        }
        self.nodes.len() + self.ways.len() + self.relations.len()
    }

    /// Seals the batch early when it has reached the entity bound; the
    /// append operations already do this, so a batch between calls is
    /// always under the bound.
    pub fn complete_if_needed(&mut self)
        ensures
            final(self).metadata() == old(self).metadata(),
            old(self).pending_count() < MAX_ENTITY_COUNT ==> *final(self) == *old(self),
    {
        proof {
            use_type_invariant(&*self);
        }
        if self.get_entity_count() >= MAX_ENTITY_COUNT {
            self.complete_block();
        }
    }

    /// Seals whatever the batch holds, even short of the bound; an empty
    /// batch still seals into an (entity-free) block.
    fn complete_block(&mut self)
        ensures
            final(self).metadata() == old(self).metadata(),
            final(self).pending_count() == 0,
            final(self).completed().len() == old(self).completed().len() + 1,
            forall|i: int|
                0 <= i < old(self).completed().len() ==> final(self).completed()[i]
                    == #[trigger] old(self).completed()[i],
            block_built(
                final(self).completed().last(),
                old(self).pending_nodes(),
                old(self).pending_ways(),
                old(self).pending_relations(),
                old(self).metadata(),
            ),
    {
        proof {
            use_type_invariant(&*self);
        }
        let mut nodes: Vec<NodeEntity> = Vec::new();
        let mut ways: Vec<WayEntity> = Vec::new();
        let mut relations: Vec<RelationEntity> = Vec::new();
        let mut completed: Vec<PrimitiveBlock> = Vec::new();
        core::mem::swap(&mut self.nodes, &mut nodes);
        core::mem::swap(&mut self.ways, &mut ways);
        core::mem::swap(&mut self.relations, &mut relations);
        core::mem::swap(&mut self.completed_blocks, &mut completed);
        proof {
            assert forall|i: int| 0 <= i < ways@.len() implies (#[trigger] ways@[i]@).tags.len()
                <= MAX_TAGS_PER_ENTITY by {
                assert(ways@.map_values(|w: WayEntity| w@)[i] == ways@[i]@);
                assert(old(self).pending_ways()[i] == ways@[i]@);
            }
            assert forall|i: int| 0 <= i < relations@.len() implies (
            #[trigger] relations@[i]@).tags.len() <= MAX_TAGS_PER_ENTITY by {
                assert(relations@.map_values(|x: RelationEntity| x@)[i] == relations@[i]@);
                assert(old(self).pending_relations()[i] == relations@[i]@);
            }
        }
        let ghost old_completed = completed@.map_values(|b: PrimitiveBlock| b@);
        Self::seal(&mut nodes, &mut ways, &mut relations, &mut completed, self.write_metadata);
        proof {
            let newc = completed@.map_values(|b: PrimitiveBlock| b@);
            assert(newc.last() == completed@.last()@);
            lemma_block_built_count(
                newc.last(),
                old(self).pending_nodes(),
                old(self).pending_ways(),
                old(self).pending_relations(),
                old(self).metadata(),
            );
            assert(ways@.map_values(|w: WayEntity| w@) =~= Seq::<WayEntityModel>::empty());
            assert(relations@.map_values(|x: RelationEntity| x@) =~= Seq::<
                RelationEntityModel,
            >::empty());
            assert forall|i: int| 0 <= i < newc.len() implies block_entity_count(
                #[trigger] newc[i],
            ) <= MAX_ENTITY_COUNT by {
                if i < old(self).completed().len() {
                    assert(newc[i] == old(self).completed()[i]);
                } else {
                    assert(newc[i] == newc.last());
                }
            }
        }
        core::mem::swap(&mut self.nodes, &mut nodes);
        core::mem::swap(&mut self.ways, &mut ways);
        core::mem::swap(&mut self.relations, &mut relations);
        core::mem::swap(&mut self.completed_blocks, &mut completed);
    }

    /// Seals any remaining entities into a final block; an empty batch
    /// seals nothing.
    pub fn complete(&mut self)
        ensures
            final(self).metadata() == old(self).metadata(),
            final(self).pending_count() == 0,
            old(self).pending_count() == 0 ==> *final(self) == *old(self),
            old(self).pending_count() > 0 ==> {
                &&& final(self).completed().len() == old(self).completed().len() + 1
                &&& (forall|i: int|
                    0 <= i < old(self).completed().len() ==> final(self).completed()[i]
                        == #[trigger] old(self).completed()[i])
                &&& block_built(
                    final(self).completed().last(),
                    old(self).pending_nodes(),
                    old(self).pending_ways(),
                    old(self).pending_relations(),
                    old(self).metadata(),
                )
            },
    {
        if self.get_entity_count() > 0 {
            self.complete_block();
        }
    }

    /// Hands the sealed blocks out and leaves the builder ready for
    /// more input. Every block respects the entity bound.
    pub fn take_blocks(&mut self) -> (r: Vec<PrimitiveBlock>)
        ensures
            r@.map_values(|b: PrimitiveBlock| b@) == old(self).completed(),
            final(self).completed().len() == 0,
            final(self).pending_nodes() == old(self).pending_nodes(),
            final(self).pending_ways() == old(self).pending_ways(),
            final(self).pending_relations() == old(self).pending_relations(),
            final(self).metadata() == old(self).metadata(),
            forall|i: int|
                0 <= i < r@.len() ==> block_entity_count(#[trigger] r@[i]@)
                    <= MAX_ENTITY_COUNT,
    {
        proof {
            use_type_invariant(&*self);
        }
        let mut blocks: Vec<PrimitiveBlock> = Vec::new();
        core::mem::swap(&mut self.completed_blocks, &mut blocks);
        proof {
            assert(final(self).completed() =~= Seq::<PrimitiveBlockModel>::empty());
            assert forall|i: int| 0 <= i < blocks@.len() implies block_entity_count(
                #[trigger] blocks@[i]@,
            ) <= MAX_ENTITY_COUNT by {
                assert(blocks@.map_values(|b: PrimitiveBlock| b@)[i] == blocks@[i]@);
                assert(old(self).completed()[i] == blocks@[i]@);
            }
        }
        blocks
    }
}

/// One entity waiting for the `visit_info` callback that follows it.
enum PendingEntity {
    PendingNode { id: i64, latitude: i64, longitude: i64 },
    PendingWay { id: i64, nodes: Vec<NodeReference>, tags: Vec<(String, String)> },
    PendingRelation { id: i64, members: Vec<MemberReference>, tags: Vec<(String, String)> },
}

/// The metadata record used when an entity arrives without one.
fn default_entity_info() -> (r: EntityInfo)
    ensures
        r == (EntityInfo {
            version: 0,
            timestamp: 0,
            changeset: 0,
            uid: 0,
            user_sid: 0,
            visible: true,
        }),
{
    EntityInfo { version: 0, timestamp: 0, changeset: 0, uid: 0, user_sid: 0, visible: true }
}

/// A visitor that feeds everything it sees into a block builder and
/// frames each finished block as a data blob in its output buffer.
/// A visitor that feeds everything it sees into a block builder and
/// frames each finished block as a data blob in its output buffer.
pub struct OsmWriterVisitor {
    builder: PrimitiveBlockBuilder,
    out: Vec<u8>,
    pending: Option<PendingEntity>,
    log: Ghost<Seq<crate::visitor::OsmEvent>>,
}

impl OsmWriterVisitor {
    /// A writer with an empty output buffer.
    pub fn new(write_metadata: bool) -> (r: OsmWriterVisitor)
        ensures
            r.output().len() == 0,
    {
        OsmWriterVisitor {
            builder: PrimitiveBlockBuilder::new(write_metadata),
            out: Vec::new(),
            pending: None,
            log: Ghost(Seq::empty()),
        }
    }

    /// The bytes written so far.
    pub closed spec fn output(&self) -> Seq<u8> {
        self.out@
    }

    /// Hands the output buffer over.
    pub fn into_bytes(self) -> (r: Vec<u8>)
        ensures
            r@ == self.output(),
    {
        self.out
    }

    /// Appends the waiting entity, with the given metadata, to the
    /// builder. An entity with more tags than a block can index is
    /// refused as unencodable.
    fn append_pending(&mut self, info: EntityInfo) -> (r: Result<(), PbfParseError>)
        ensures
            final(self).log == old(self).log,
            final(self).out == old(self).out,
    {
        match self.pending.take() {
            None => Ok(()),
            Some(PendingEntity::PendingNode { id, latitude, longitude }) => {
                self.builder.append_node(id, latitude, longitude, info);
                Ok(())
            },
            Some(PendingEntity::PendingWay { id, nodes, tags }) => {
                // The bound keeps every string-table index of the sealed
                // block within the 32-bit range the wire format gives it.
                if tags.len() > MAX_TAGS_PER_ENTITY {
                    return Err(PbfParseError::InvalidMessage);
                }
                self.builder.append_way(id, nodes, tags, info);
                Ok(())
            },
            Some(PendingEntity::PendingRelation { id, members, tags }) => {
                if tags.len() > MAX_TAGS_PER_ENTITY {
                    return Err(PbfParseError::InvalidMessage);
                }
                self.builder.append_relation(id, members, tags, info);
                Ok(())
            },
        }
    }

    /// Serializes each completed block and frames it as a data blob.
    fn write_completed(&mut self) -> (r: Result<(), PbfParseError>)
        ensures
            final(self).log == old(self).log,
            old(self).out@.is_prefix_of(final(self).out@),
    {
        let blocks = self.builder.take_blocks();
        let mut i: usize = 0;
        let ghost out0 = self.out@;
        proof {
            assert(out0.is_prefix_of(self.out@)) by {
                assert(out0 =~= self.out@.take(out0.len() as int));
            }
        }
        while i < blocks.len()
            invariant
                self.log == old(self).log,
                out0.is_prefix_of(self.out@),
                out0 == old(self).out@,
            decreases blocks@.len() - i,
        {
            let mut bytes: Vec<u8> = Vec::new();
            crate::osmformat::encode_block(&mut bytes, &blocks[i]);
            if bytes.len() > 0x7FFFFFFF {
                return Err(PbfParseError::InvalidBodyLength(u32::MAX));
            }
            let blob = Blob::new(BlobType::DATA, bytes);
            let ghost before = self.out@;
            let res = blob.write(&mut self.out);
            proof {
                assert(out0.is_prefix_of(self.out@)) by {
                    if self.out@ != before {
                        assert(self.out@.take(before.len() as int) == before);
                        assert(out0 =~= self.out@.take(out0.len() as int));
                    }
                }
            }
            match res {
                Ok(()) => {},
                Err(e) => {
                    return Err(e);
                },
            }
            i += 1;
        }
        Ok(())
    }
}

impl crate::visitor::OsmVisitor for OsmWriterVisitor {
    closed spec fn events(&self) -> Seq<crate::visitor::OsmEvent> {
        self.log@
    }

    fn visit_block(
        &mut self,
        lat_offset: i64,
        lon_offset: i64,
        granularity: i32,
        date_granularity: i32,
    ) -> (r: Result<(), PbfParseError>) {
        self.log = Ghost(
            self.log@.push(
                crate::visitor::OsmEvent::BlockStarted {
                    lat_offset,
                    lon_offset,
                    granularity,
                    date_granularity,
                },
            ),
        );
        Ok(())
    }

    fn visit_string_table(&mut self, strings: &Vec<String>) -> (r: Result<(), PbfParseError>) {
        self.log = Ghost(
            self.log@.push(
                crate::visitor::OsmEvent::StringTableSeen {
                    strings: strings@.map_values(|s: String| s@),
                },
            ),
        );
        Ok(())
    }

    fn visit_group(&mut self) -> (r: Result<(), PbfParseError>) {
        self.log = Ghost(self.log@.push(crate::visitor::OsmEvent::GroupStarted));
        Ok(())
    }

    fn end_group(&mut self) -> (r: Result<(), PbfParseError>) {
        self.log = Ghost(self.log@.push(crate::visitor::OsmEvent::GroupEnded));
        Ok(())
    }

    fn visit_node(&mut self, id: i64, latitude: i64, longitude: i64) -> (r: Result<
        (),
        PbfParseError,
    >) {
        self.log = Ghost(
            self.log@.push(crate::visitor::OsmEvent::NodeSeen { id, latitude, longitude }),
        );
        let flushed = self.append_pending(default_entity_info());
        match flushed {
            Ok(()) => {
                self.pending = Some(PendingEntity::PendingNode { id, latitude, longitude });
                Ok(())
            },
            Err(e) => Err(e),
        }
    }

    fn visit_way(
        &mut self,
        id: i64,
        nodes: Vec<NodeReference>,
        tags: Vec<(String, String)>,
    ) -> (r: Result<(), PbfParseError>) {
        self.log = Ghost(
            self.log@.push(
                crate::visitor::OsmEvent::WaySeen {
                    id,
                    refs: nodes@.map_values(|n: NodeReference| n.id),
                    tags: tags@.map_values(|t: (String, String)| (t.0@, t.1@)),
                },
            ),
        );
        let flushed = self.append_pending(default_entity_info());
        match flushed {
            Ok(()) => {
                self.pending = Some(PendingEntity::PendingWay { id, nodes, tags });
                Ok(())
            },
            Err(e) => Err(e),
        }
    }

    fn visit_relation(
        &mut self,
        id: i64,
        members: Vec<MemberReference>,
        tags: Vec<(String, String)>,
    ) -> (r: Result<(), PbfParseError>) {
        self.log = Ghost(
            self.log@.push(
                crate::visitor::OsmEvent::RelationSeen {
                    id,
                    members: members@,
                    tags: tags@.map_values(|t: (String, String)| (t.0@, t.1@)),
                },
            ),
        );
        let flushed = self.append_pending(default_entity_info());
        match flushed {
            Ok(()) => {
                self.pending = Some(PendingEntity::PendingRelation { id, members, tags });
                Ok(())
            },
            Err(e) => Err(e),
        }
    }

    fn visit_info(
        &mut self,
        version: i32,
        timestamp: i64,
        changeset: i64,
        uid: i32,
        user_sid: u32,
        visible: bool,
    ) -> (r: Result<(), PbfParseError>) {
        self.log = Ghost(
            self.log@.push(
                crate::visitor::OsmEvent::InfoSeen {
                    version,
                    timestamp,
                    changeset,
                    uid,
                    user_sid,
                    visible,
                },
            ),
        );
        self.append_pending(EntityInfo { version, timestamp, changeset, uid, user_sid, visible })
    }

    fn end_block(&mut self) -> (r: Result<(), PbfParseError>) {
        self.log = Ghost(self.log@.push(crate::visitor::OsmEvent::BlockEnded));
        let flushed = self.append_pending(default_entity_info());
        match flushed {
            Ok(()) => self.write_completed(),
            Err(e) => Err(e),
        }
    }

    fn visit_header(&mut self, block: &HeaderBlock) -> (r: Result<(), PbfParseError>)
        ensures
            old(self).output().is_prefix_of(final(self).output()),
            block@.len() > 0x7FFFFFFF ==> r == Err::<(), PbfParseError>(
                PbfParseError::InvalidBodyLength(u32::MAX),
            ) && final(self).output() == old(self).output(),
            r is Ok ==> (crate::blob::frame_parse(
                final(self).output(),
                old(self).output().len() as int,
            ) matches Ok(p) && p.0 == (crate::blob::BlobModel {
                data_type: BlobType::HEADER,
                data: block@,
            }) && p.1 == final(self).output().len()),
    {
        self.log = Ghost(
            self.log@.push(crate::visitor::OsmEvent::HeaderSeen { data: block@ }),
        );
        proof {
            assert(old(self).output().is_prefix_of(self.out@)) by {
                assert(old(self).out@ =~= self.out@.take(old(self).out@.len() as int));
            }
        }
        if block.data.len() > 0x7FFFFFFF {
            return Err(PbfParseError::InvalidBodyLength(u32::MAX));
        }
        let bytes = vstd::slice::slice_to_vec(block.data.as_slice());
        let blob = Blob::new(BlobType::HEADER, bytes);
        let res = blob.write(&mut self.out);
        proof {
            assert(old(self).output().is_prefix_of(self.out@)) by {
                if self.out@ != old(self).out@ {
                    assert(self.out@.take(old(self).out@.len() as int) == old(self).out@);
                    assert(old(self).out@ =~= self.out@.take(old(self).out@.len() as int));
                }
            }
        }
        match res {
            Ok(()) => Ok(()),
            Err(e) => Err(e),
        }
    }

    fn end(&mut self) -> (r: Result<(), PbfParseError>) {
        let flushed = self.append_pending(default_entity_info());
        let r = match flushed {
            Ok(()) => {
                self.builder.complete();
                self.write_completed()
            },
            Err(e) => Err(e),
        };
        self.log = Ghost(self.log@.push(crate::visitor::OsmEvent::Ended { result: r }));
        r
    }

    fn handle_error(&mut self, error: &PbfParseError) -> (r: bool) {
        self.log = Ghost(
            self.log@.push(crate::visitor::OsmEvent::ErrorSeen { error: *error, stop: false }),
        );
        false
    }
}


} // verus!
