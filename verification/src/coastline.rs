//! The coastline filter, a demonstration of the visitor contract: a
//! first pass collects the ids of nodes referenced by coastline ways, a
//! second pass re-emits only those nodes and the coastline ways and
//! relations.

use vstd::prelude::*;
use std::collections::HashSet;
use crate::error::PbfParseError;
use crate::osm::HeaderBlock;
use crate::osm::MemberReference;
use crate::osm::NodeReference;
use crate::visitor::OsmEvent;
use crate::visitor::OsmVisitor;

verus! {

broadcast use vstd::std_specs::hash::group_hash_axioms;

/// Whether a tag list marks an entity as coastline.
pub open spec fn coastline_tag(tags: Seq<(Seq<char>, Seq<char>)>) -> bool {
    exists|i: int|
        0 <= i < tags.len() && (#[trigger] tags[i]).0 == "natural"@ && tags[i].1 == "coastline"@
}

/// Decides the coastline predicate on a tag list.
pub fn is_coastline(tags: &Vec<(String, String)>) -> (r: bool)
    ensures
        r == coastline_tag(tags@.map_values(|t: (String, String)| (t.0@, t.1@))),
{
    let natural: String = "natural".to_owned();
    let coastline: String = "coastline".to_owned();
    let ghost tv = tags@.map_values(|t: (String, String)| (t.0@, t.1@));
    let mut i: usize = 0;
    while i < tags.len()
        invariant
            i <= tags@.len(),
            tv == tags@.map_values(|t: (String, String)| (t.0@, t.1@)),
            natural@ == "natural"@,
            coastline@ == "coastline"@,
            forall|j: int| 0 <= j < i ==> !((#[trigger] tv[j]).0 == "natural"@ && tv[j].1
                == "coastline"@),
        decreases tags@.len() - i,
    {
        let tag = &tags[i];
        if tag.0 == natural && tag.1 == coastline {
            proof {
                assert(tv[i as int].0 == "natural"@ && tv[i as int].1 == "coastline"@);
            }
            return true;
        }
        proof {
            assert(tv[i as int] == (tags@[i as int].0@, tags@[i as int].1@));
        }
        i += 1;
    }
    false
}

/// First pass: the set of node ids any coastline way references.
pub struct NodeCollectionVisitor {
    pub nodes: HashSet<i64>,
    pub log: Ghost<Seq<OsmEvent>>,
}

impl NodeCollectionVisitor {
    /// An empty collection.
    pub fn new() -> (r: NodeCollectionVisitor)
        ensures
            r.nodes@ == Set::<i64>::empty(),
    {
        NodeCollectionVisitor { nodes: HashSet::new(), log: Ghost(Seq::empty()) }
    }
}

impl OsmVisitor for NodeCollectionVisitor {
    closed spec fn events(&self) -> Seq<OsmEvent> {
        self.log@
    }

    fn visit_block(
        &mut self,
        lat_offset: i64,
        lon_offset: i64,
        granularity: i32,
        date_granularity: i32,
    ) -> (r: Result<(), PbfParseError>) {
        self.log = Ghost(
            self.log@.push(
                OsmEvent::BlockStarted { lat_offset, lon_offset, granularity, date_granularity },
            ),
        );
        Ok(())
    }

    fn visit_string_table(&mut self, strings: &Vec<String>) -> (r: Result<(), PbfParseError>) {
        self.log = Ghost(
            self.log@.push(
                OsmEvent::StringTableSeen { strings: strings@.map_values(|s: String| s@) },
            ),
        );
        Ok(())
    }

    fn visit_group(&mut self) -> (r: Result<(), PbfParseError>) {
        self.log = Ghost(self.log@.push(OsmEvent::GroupStarted));
        Ok(())
    }

    fn end_group(&mut self) -> (r: Result<(), PbfParseError>) {
        self.log = Ghost(self.log@.push(OsmEvent::GroupEnded));
        Ok(())
    }

    fn visit_node(&mut self, id: i64, latitude: i64, longitude: i64) -> (r: Result<
        (),
        PbfParseError,
    >) {
        self.log = Ghost(self.log@.push(OsmEvent::NodeSeen { id, latitude, longitude }));
        Ok(())
    }

    /// A coastline way adds every node it references to the collection;
    /// any other way leaves it unchanged.
    fn visit_way(
        &mut self,
        id: i64,
        nodes: Vec<NodeReference>,
        tags: Vec<(String, String)>,
    ) -> (r: Result<(), PbfParseError>)
        ensures
            r is Ok,
            final(self).nodes@ == (if coastline_tag(
                tags@.map_values(|t: (String, String)| (t.0@, t.1@)),
            ) {
                old(self).nodes@.union(
                    nodes@.map_values(|n: NodeReference| n.id).to_set(),
                )
            } else {
                old(self).nodes@
            }),
    {
        self.log = Ghost(
            self.log@.push(
                OsmEvent::WaySeen {
                    id,
                    refs: nodes@.map_values(|n: NodeReference| n.id),
                    tags: tags@.map_values(|t: (String, String)| (t.0@, t.1@)),
                },
            ),
        );
        let ghost ids = nodes@.map_values(|n: NodeReference| n.id);
        let ghost log1 = self.log@;
        if is_coastline(&tags) {
            let mut i: usize = 0;
            proof {
                assert(self.nodes@.union(ids.take(0).to_set()) =~= self.nodes@) by {
                    assert(ids.take(0) =~= Seq::<i64>::empty());
                    assert(Seq::<i64>::empty().to_set() =~= Set::<i64>::empty());
                }
            }
            while i < nodes.len()
                invariant
                    i <= nodes@.len(),
                    ids == nodes@.map_values(|n: NodeReference| n.id),
                    self.nodes@ == old(self).nodes@.union(ids.take(i as int).to_set()),
                    self.log@ == log1,
                decreases nodes@.len() - i,
            {
                proof {
                    assert(ids.take(i as int + 1) =~= ids.take(i as int).push(ids[i as int]));
                    assert(ids.take(i as int + 1).to_set() =~= ids.take(
                        i as int,
                    ).to_set().insert(ids[i as int])) by {
                        let a = ids.take(i as int);
                        let b = ids.take(i as int + 1);
                        assert forall|y: i64| b.to_set().contains(y) implies a.to_set().insert(
                            ids[i as int],
                        ).contains(y) by {
                            let w = b.index_of(y);
                            if w < i {
                                assert(a[w] == y);
                                assert(a.contains(y));
                            } else {
                                assert(y == ids[i as int]);
                            }
                        }
                        assert forall|y: i64| a.to_set().insert(ids[i as int]).contains(y)
                            implies b.to_set().contains(y) by {
                            if y == ids[i as int] {
                                assert(b[i as int] == y);
                                assert(b.contains(y));
                            } else {
                                let w = a.index_of(y);
                                assert(b[w] == y);
                                assert(b.contains(y));
                            }
                        }
                    }
                    assert(old(self).nodes@.union(ids.take(i as int).to_set()).insert(
                        ids[i as int],
                    ) =~= old(self).nodes@.union(ids.take(i as int + 1).to_set()));
                }
                self.nodes.insert(nodes[i].id);
                i += 1;
            }
            proof {
                assert(ids.take(ids.len() as int) =~= ids);
            }
        }
        Ok(())
    }

    fn visit_relation(
        &mut self,
        id: i64,
        members: Vec<MemberReference>,
        tags: Vec<(String, String)>,
    ) -> (r: Result<(), PbfParseError>) {
        self.log = Ghost(
            self.log@.push(
                OsmEvent::RelationSeen {
                    id,
                    members: members@,
                    tags: tags@.map_values(|t: (String, String)| (t.0@, t.1@)),
                },
            ),
        );
        Ok(())
    }

    fn visit_info(
        &mut self,
        version: i32,
        timestamp: i64,
        changeset: i64,
        uid: i32,
        user_sid: u32,
        visible: bool,
    ) -> (r: Result<(), PbfParseError>) {
        self.log = Ghost(
            self.log@.push(
                OsmEvent::InfoSeen { version, timestamp, changeset, uid, user_sid, visible },
            ),
        );
        Ok(())
    }

    fn end_block(&mut self) -> (r: Result<(), PbfParseError>) {
        self.log = Ghost(self.log@.push(OsmEvent::BlockEnded));
        Ok(())
    }

    fn visit_header(&mut self, block: &HeaderBlock) -> (r: Result<(), PbfParseError>) {
        self.log = Ghost(self.log@.push(OsmEvent::HeaderSeen { data: block@ }));
        Ok(())
    }

    fn end(&mut self) -> (r: Result<(), PbfParseError>) {
        self.log = Ghost(self.log@.push(OsmEvent::Ended { result: Ok(()) }));
        Ok(())
    }

    fn handle_error(&mut self, error: &PbfParseError) -> (r: bool) {
        self.log = Ghost(
            self.log@.push(OsmEvent::ErrorSeen { error: *error, stop: false }),
        );
        false
    }
}

/// Second pass: forwards only the collected nodes and the coastline
/// ways and relations to the wrapped visitor.
pub struct CoastlineVisitor<V: OsmVisitor> {
    pub parent: V,
    pub nodes: HashSet<i64>,
    pub log: Ghost<Seq<OsmEvent>>,
}

impl<V: OsmVisitor> CoastlineVisitor<V> {
    /// Wraps a downstream visitor with the collected node set.
    pub fn new(parent: V, nodes: HashSet<i64>) -> (r: CoastlineVisitor<V>)
        ensures
            r.parent == parent,
            r.nodes == nodes,
    {
        CoastlineVisitor { parent, nodes, log: Ghost(Seq::empty()) }
    }

    /// Hands the downstream visitor back.
    pub fn into_parent(self) -> (r: V)
        ensures
            r == self.parent,
    {
        self.parent
    }
}

impl<V: OsmVisitor> OsmVisitor for CoastlineVisitor<V> {
    closed spec fn events(&self) -> Seq<OsmEvent> {
        self.log@
    }

    fn visit_block(
        &mut self,
        lat_offset: i64,
        lon_offset: i64,
        granularity: i32,
        date_granularity: i32,
    ) -> (r: Result<(), PbfParseError>) {
        self.log = Ghost(
            self.log@.push(
                OsmEvent::BlockStarted { lat_offset, lon_offset, granularity, date_granularity },
            ),
        );
        Ok(())
    }

    fn visit_string_table(&mut self, strings: &Vec<String>) -> (r: Result<(), PbfParseError>) {
        self.log = Ghost(
            self.log@.push(
                OsmEvent::StringTableSeen { strings: strings@.map_values(|s: String| s@) },
            ),
        );
        Ok(())
    }

    fn visit_group(&mut self) -> (r: Result<(), PbfParseError>) {
        self.log = Ghost(self.log@.push(OsmEvent::GroupStarted));
        Ok(())
    }

    fn end_group(&mut self) -> (r: Result<(), PbfParseError>) {
        self.log = Ghost(self.log@.push(OsmEvent::GroupEnded));
        Ok(())
    }

    /// Forwards the node exactly when its id was collected.
    fn visit_node(&mut self, id: i64, latitude: i64, longitude: i64) -> (r: Result<
        (),
        PbfParseError,
    >)
        ensures
            old(self).nodes@.contains(id) ==> final(self).parent.events() == old(
                self,
            ).parent.events().push(OsmEvent::NodeSeen { id, latitude, longitude }),
            !old(self).nodes@.contains(id) ==> final(self).parent.events() == old(
                self,
            ).parent.events() && r is Ok,
    {
        self.log = Ghost(self.log@.push(OsmEvent::NodeSeen { id, latitude, longitude }));
        if self.nodes.contains(&id) {
            self.parent.visit_node(id, latitude, longitude)
        } else {
            Ok(())
        }
    }

    /// Forwards the way exactly when it carries the coastline tag.
    fn visit_way(
        &mut self,
        id: i64,
        nodes: Vec<NodeReference>,
        tags: Vec<(String, String)>,
    ) -> (r: Result<(), PbfParseError>)
        ensures
            ({
                let tv = tags@.map_values(|t: (String, String)| (t.0@, t.1@));
                &&& (coastline_tag(tv) ==> final(self).parent.events() == old(
                    self,
                ).parent.events().push(
                    OsmEvent::WaySeen {
                        id,
                        refs: nodes@.map_values(|n: NodeReference| n.id),
                        tags: tv,
                    },
                ))
                &&& (!coastline_tag(tv) ==> final(self).parent.events() == old(
                    self,
                ).parent.events() && r is Ok)
            }),
    {
        self.log = Ghost(
            self.log@.push(
                OsmEvent::WaySeen {
                    id,
                    refs: nodes@.map_values(|n: NodeReference| n.id),
                    tags: tags@.map_values(|t: (String, String)| (t.0@, t.1@)),
                },
            ),
        );
        if is_coastline(&tags) {
            self.parent.visit_way(id, nodes, tags)
        } else {
            Ok(())
        }
    }

    /// Forwards the relation exactly when it carries the coastline tag.
    fn visit_relation(
        &mut self,
        id: i64,
        members: Vec<MemberReference>,
        tags: Vec<(String, String)>,
    ) -> (r: Result<(), PbfParseError>)
        ensures
            ({
                let tv = tags@.map_values(|t: (String, String)| (t.0@, t.1@));
                &&& (coastline_tag(tv) ==> final(self).parent.events() == old(
                    self,
                ).parent.events().push(
                    OsmEvent::RelationSeen { id, members: members@, tags: tv },
                ))
                &&& (!coastline_tag(tv) ==> final(self).parent.events() == old(
                    self,
                ).parent.events() && r is Ok)
            }),
    {
        self.log = Ghost(
            self.log@.push(
                OsmEvent::RelationSeen {
                    id,
                    members: members@,
                    tags: tags@.map_values(|t: (String, String)| (t.0@, t.1@)),
                },
            ),
        );
        if is_coastline(&tags) {
            self.parent.visit_relation(id, members, tags)
        } else {
            Ok(())
        }
    }

    /// Metadata is always forwarded; the writer downstream pairs it with
    /// the entity it kept, and drops it otherwise.
    fn visit_info(
        &mut self,
        version: i32,
        timestamp: i64,
        changeset: i64,
        uid: i32,
        user_sid: u32,
        visible: bool,
    ) -> (r: Result<(), PbfParseError>)
        ensures
            final(self).parent.events() == old(self).parent.events().push(
                OsmEvent::InfoSeen { version, timestamp, changeset, uid, user_sid, visible },
            ),
    {
        self.log = Ghost(
            self.log@.push(
                OsmEvent::InfoSeen { version, timestamp, changeset, uid, user_sid, visible },
            ),
        );
        self.parent.visit_info(version, timestamp, changeset, uid, user_sid, visible)
    }

    fn end_block(&mut self) -> (r: Result<(), PbfParseError>)
        ensures
            final(self).parent.events() == old(self).parent.events().push(
                OsmEvent::BlockEnded,
            ),
    {
        self.log = Ghost(self.log@.push(OsmEvent::BlockEnded));
        self.parent.end_block()
    }

    fn visit_header(&mut self, block: &HeaderBlock) -> (r: Result<(), PbfParseError>)
        ensures
            final(self).parent.events() == old(self).parent.events().push(
                OsmEvent::HeaderSeen { data: block@ },
            ),
    {
        self.log = Ghost(self.log@.push(OsmEvent::HeaderSeen { data: block@ }));
        self.parent.visit_header(block)
    }

    fn end(&mut self) -> (r: Result<(), PbfParseError>) {
        let r = self.parent.end();
        self.log = Ghost(self.log@.push(OsmEvent::Ended { result: r }));
        r
    }

    fn handle_error(&mut self, error: &PbfParseError) -> (r: bool) {
        self.log = Ghost(
            self.log@.push(OsmEvent::ErrorSeen { error: *error, stop: false }),
        );
        false
    }
}

} // verus!
