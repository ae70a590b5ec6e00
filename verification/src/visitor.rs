//! The visitor capabilities: a blob visitor sees framed blobs, an OSM
//! visitor sees decoded blocks and entities. Every visitor keeps a ghost
//! log of the callbacks it has received, so the readers' contracts can
//! say exactly which callbacks a file delivers. A callback that returns
//! an error aborts the current block and reaches the driver's error
//! handling.

use vstd::prelude::*;
use crate::blob::Blob;
use crate::blob::BlobModel;
use crate::error::PbfParseError;
use crate::osm::HeaderBlock;
use crate::osm::MemberReference;
use crate::osm::NodeReference;

verus! {

/// One callback as a blob visitor's ghost log records it, the visitor's
/// own answer included.
pub enum BlobEvent {
    BlobSeen { blob: BlobModel, result: Result<(), PbfParseError> },
    StreamEnded { result: Result<(), PbfParseError> },
    ErrorSeen { error: PbfParseError, stop: bool },
}

/// Reacts to each decoded blob of a file, recording every callback in
/// its ghost log.
pub trait BlobVisitor {
    spec fn events(&self) -> Seq<BlobEvent>;

    fn visit_blob(&mut self, blob: &Blob) -> (r: Result<(), PbfParseError>)
        ensures
            final(self).events() == old(self).events().push(
                BlobEvent::BlobSeen { blob: blob@, result: r },
            ),
    ;

    fn end(&mut self) -> (r: Result<(), PbfParseError>)
        ensures
            final(self).events() == old(self).events().push(
                BlobEvent::StreamEnded { result: r },
            ),
    ;

    fn handle_error(&mut self, error: &PbfParseError) -> (r: bool)
        ensures
            final(self).events() == old(self).events().push(
                BlobEvent::ErrorSeen { error: *error, stop: r },
            ),
    ;
}

/// One callback as an OSM visitor's ghost log records it.
pub enum OsmEvent {
    BlockStarted { lat_offset: i64, lon_offset: i64, granularity: i32, date_granularity: i32 },
    StringTableSeen { strings: Seq<Seq<char>> },
    GroupStarted,
    NodeSeen { id: i64, latitude: i64, longitude: i64 },
    WaySeen { id: i64, refs: Seq<i64>, tags: Seq<(Seq<char>, Seq<char>)> },
    RelationSeen { id: i64, members: Seq<MemberReference>, tags: Seq<(Seq<char>, Seq<char>)> },
    InfoSeen {
        version: i32,
        timestamp: i64,
        changeset: i64,
        uid: i32,
        user_sid: u32,
        visible: bool,
    },
    GroupEnded,
    BlockEnded,
    HeaderSeen { data: Seq<u8> },
    Ended { result: Result<(), PbfParseError> },
    ErrorSeen { error: PbfParseError, stop: bool },
}

/// Reacts to each decoded block and entity of a file, recording every
/// callback in its ghost log. Coordinates are absolute nanodegrees;
/// metadata follows its entity in `visit_info`.
pub trait OsmVisitor {
    spec fn events(&self) -> Seq<OsmEvent>;

    fn visit_block(
        &mut self,
        lat_offset: i64,
        lon_offset: i64,
        granularity: i32,
        date_granularity: i32,
    ) -> (r: Result<(), PbfParseError>)
        ensures
            final(self).events() == old(self).events().push(
                OsmEvent::BlockStarted { lat_offset, lon_offset, granularity, date_granularity },
            ),
    ;

    fn visit_string_table(&mut self, strings: &Vec<String>) -> (r: Result<(), PbfParseError>)
        ensures
            final(self).events() == old(self).events().push(
                OsmEvent::StringTableSeen { strings: strings@.map_values(|s: String| s@) },
            ),
    ;

    fn end_block(&mut self) -> (r: Result<(), PbfParseError>)
        ensures
            final(self).events() == old(self).events().push(OsmEvent::BlockEnded),
    ;

    fn visit_group(&mut self) -> (r: Result<(), PbfParseError>)
        ensures
            final(self).events() == old(self).events().push(OsmEvent::GroupStarted),
    ;

    fn end_group(&mut self) -> (r: Result<(), PbfParseError>)
        ensures
            final(self).events() == old(self).events().push(OsmEvent::GroupEnded),
    ;

    fn visit_node(&mut self, id: i64, latitude: i64, longitude: i64) -> (r: Result<
        (),
        PbfParseError,
    >)
        ensures
            final(self).events() == old(self).events().push(
                OsmEvent::NodeSeen { id, latitude, longitude },
            ),
    ;

    fn visit_way(
        &mut self,
        id: i64,
        nodes: Vec<NodeReference>,
        tags: Vec<(String, String)>,
    ) -> (r: Result<(), PbfParseError>)
        ensures
            final(self).events() == old(self).events().push(
                OsmEvent::WaySeen {
                    id,
                    refs: nodes@.map_values(|n: NodeReference| n.id),
                    tags: tags@.map_values(|t: (String, String)| (t.0@, t.1@)),
                },
            ),
    ;

    fn visit_relation(
        &mut self,
        id: i64,
        members: Vec<MemberReference>,
        tags: Vec<(String, String)>,
    ) -> (r: Result<(), PbfParseError>)
        ensures
            final(self).events() == old(self).events().push(
                OsmEvent::RelationSeen {
                    id,
                    members: members@,
                    tags: tags@.map_values(|t: (String, String)| (t.0@, t.1@)),
                },
            ),
    ;

    fn visit_info(
        &mut self,
        version: i32,
        timestamp: i64,
        changeset: i64,
        uid: i32,
        user_sid: u32,
        visible: bool,
    ) -> (r: Result<(), PbfParseError>)
        ensures
            final(self).events() == old(self).events().push(
                OsmEvent::InfoSeen { version, timestamp, changeset, uid, user_sid, visible },
            ),
    ;

    fn visit_header(&mut self, block: &HeaderBlock) -> (r: Result<(), PbfParseError>)
        ensures
            final(self).events() == old(self).events().push(
                OsmEvent::HeaderSeen { data: block@ },
            ),
    ;

    fn end(&mut self) -> (r: Result<(), PbfParseError>)
        ensures
            final(self).events() == old(self).events().push(OsmEvent::Ended { result: r }),
    ;

    fn handle_error(&mut self, error: &PbfParseError) -> (r: bool)
        ensures
            final(self).events() == old(self).events().push(
                OsmEvent::ErrorSeen { error: *error, stop: r },
            ),
    ;
}

} // verus!
