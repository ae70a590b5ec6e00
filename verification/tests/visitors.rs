//! Driver and visitor behaviour: the scenarios a reader of the format
//! expects, plus the two-pass coastline filter.

use osm_pbf::blob::{Blob, BlobType};
use osm_pbf::coastline::{CoastlineVisitor, NodeCollectionVisitor};
use osm_pbf::error::PbfParseError;
use osm_pbf::fileformat::encode_blob_header;
use osm_pbf::osm::{HeaderBlock, MemberReference, NodeReference, OsmReader};
use osm_pbf::osmformat::{encode_block, DenseNodes, PrimitiveBlock, PrimitiveGroup, Relation, Way};
use osm_pbf::reader::BlobReader;
use osm_pbf::visitor::{BlobVisitor, OsmVisitor};
use osm_pbf::writer::OsmWriterVisitor;

#[derive(Default)]
struct CountingBlobVisitor {
    blobs: usize,
    ends: usize,
    errors: usize,
}

impl BlobVisitor for CountingBlobVisitor {
    // Ghost-only in verified code; never called at runtime.
    fn events(&self) -> vstd::prelude::Seq<osm_pbf::visitor::BlobEvent> {
        panic!()
    }

    fn visit_blob(&mut self, _blob: &Blob) -> Result<(), PbfParseError> {
        self.blobs += 1;
        Ok(())
    }

    fn end(&mut self) -> Result<(), PbfParseError> {
        self.ends += 1;
        Ok(())
    }

    fn handle_error(&mut self, _error: &PbfParseError) -> bool {
        self.errors += 1;
        false
    }
}

#[derive(Default)]
struct Recorder {
    nodes: Vec<(i64, i64, i64)>,
    ways: Vec<(i64, Vec<i64>, Vec<(String, String)>)>,
    relations: Vec<(i64, Vec<(i64, i32)>, Vec<(String, String)>)>,
    infos: Vec<(i32, i64, i64, i32, u32, bool)>,
    headers: Vec<Vec<u8>>,
    strings: Vec<Vec<String>>,
    blocks: usize,
    groups: usize,
    ends: usize,
    errors: usize,
}

impl OsmVisitor for Recorder {
    // Ghost-only in verified code; never called at runtime.
    fn events(&self) -> vstd::prelude::Seq<osm_pbf::visitor::OsmEvent> {
        panic!()
    }

    fn visit_block(
        &mut self,
        _lat_offset: i64,
        _lon_offset: i64,
        _granularity: i32,
        _date_granularity: i32,
    ) -> Result<(), PbfParseError> {
        self.blocks += 1;
        Ok(())
    }

    fn visit_string_table(&mut self, strings: &Vec<String>) -> Result<(), PbfParseError> {
        self.strings.push(strings.clone());
        Ok(())
    }

    fn visit_group(&mut self) -> Result<(), PbfParseError> {
        self.groups += 1;
        Ok(())
    }

    fn end_group(&mut self) -> Result<(), PbfParseError> {
        Ok(())
    }

    fn end_block(&mut self) -> Result<(), PbfParseError> {
        Ok(())
    }

    fn visit_node(&mut self, id: i64, latitude: i64, longitude: i64) -> Result<(), PbfParseError> {
        self.nodes.push((id, latitude, longitude));
        Ok(())
    }

    fn visit_way(
        &mut self,
        id: i64,
        nodes: Vec<NodeReference>,
        tags: Vec<(String, String)>,
    ) -> Result<(), PbfParseError> {
        self.ways.push((id, nodes.iter().map(|n| n.id).collect(), tags));
        Ok(())
    }

    fn visit_relation(
        &mut self,
        id: i64,
        members: Vec<MemberReference>,
        tags: Vec<(String, String)>,
    ) -> Result<(), PbfParseError> {
        self.relations
            .push((id, members.iter().map(|m| (m.id, m.role_sid)).collect(), tags));
        Ok(())
    }

    fn visit_info(
        &mut self,
        version: i32,
        timestamp: i64,
        changeset: i64,
        uid: i32,
        user_sid: u32,
        visible: bool,
    ) -> Result<(), PbfParseError> {
        self.infos.push((version, timestamp, changeset, uid, user_sid, visible));
        Ok(())
    }

    fn visit_header(&mut self, block: &HeaderBlock) -> Result<(), PbfParseError> {
        self.headers.push(block.data.clone());
        Ok(())
    }

    fn end(&mut self) -> Result<(), PbfParseError> {
        self.ends += 1;
        Ok(())
    }

    fn handle_error(&mut self, _error: &PbfParseError) -> bool {
        self.errors += 1;
        false
    }
}

fn empty_group() -> PrimitiveGroup {
    PrimitiveGroup { nodes: Vec::new(), dense: None, ways: Vec::new(), relations: Vec::new() }
}

fn empty_block() -> PrimitiveBlock {
    PrimitiveBlock {
        stringtable: vec![Vec::new()],
        groups: Vec::new(),
        granularity: 100,
        date_granularity: 1000,
        lat_offset: 0,
        lon_offset: 0,
    }
}

fn frame_block(block: &PrimitiveBlock, out: &mut Vec<u8>) {
    let mut bytes: Vec<u8> = Vec::new();
    encode_block(&mut bytes, block);
    Blob::new(BlobType::DATA, bytes).write(out).expect("frame fits");
}

#[test]
fn empty_file_calls_end_once() {
    let mut reader = BlobReader::from(Vec::new());
    let mut visitor = CountingBlobVisitor::default();
    reader.accept(&mut visitor);
    assert_eq!(visitor.blobs, 0);
    assert_eq!(visitor.ends, 1);
    assert_eq!(visitor.errors, 0);
}

#[test]
fn single_header_blob_visits_header_once() {
    let header_payload: Vec<u8> = vec![0x0A, 0x03, b'a', b'b', b'c'];
    let mut input: Vec<u8> = Vec::new();
    Blob::new(BlobType::HEADER, header_payload.clone()).write(&mut input).expect("frame fits");

    let mut reader = OsmReader::from(BlobReader::from(input));
    let mut recorder = Recorder::default();
    reader.accept(&mut recorder);
    assert_eq!(recorder.headers, vec![header_payload.clone()]);
    assert_eq!(recorder.ends, 1);
    assert_eq!(recorder.errors, 0);

    // Round trip through the writer: re-reading what it wrote yields the
    // same header payload.
    let mut writer = OsmWriterVisitor::new(true);
    writer
        .visit_header(&HeaderBlock { data: header_payload.clone() })
        .expect("header written");
    writer.end().expect("end");
    let rewritten = writer.into_bytes();
    let mut reader2 = OsmReader::from(BlobReader::from(rewritten));
    let mut recorder2 = Recorder::default();
    reader2.accept(&mut recorder2);
    assert_eq!(recorder2.headers, vec![header_payload]);
}

#[test]
fn single_dense_block_three_nodes() {
    let mut block = empty_block();
    let mut group = empty_group();
    group.dense = Some(DenseNodes {
        id: vec![1, 1, 1],
        lat: vec![10, 10, 10],
        lon: vec![10, 10, 10],
        keys_vals: Vec::new(),
        denseinfo: None,
    });
    block.groups.push(group);
    let mut input: Vec<u8> = Vec::new();
    frame_block(&block, &mut input);

    let mut reader = OsmReader::from(BlobReader::from(input));
    let mut recorder = Recorder::default();
    reader.accept(&mut recorder);
    assert_eq!(recorder.errors, 0);
    // granularity 100: raw 10, 20, 30 scale to 1000, 2000, 3000
    // nanodegrees, which is 1.0e-6, 2.0e-6, 3.0e-6 degrees.
    assert_eq!(
        recorder.nodes,
        vec![(1, 1000, 1000), (2, 2000, 2000), (3, 3000, 3000)]
    );
    assert_eq!(recorder.blocks, 1);
    assert_eq!(recorder.groups, 1);
    assert_eq!(recorder.infos.len(), 3);
    assert_eq!(recorder.infos[0], (0, 0, 0, 0, 0, true));
}

#[test]
fn way_with_tags_resolves_table_and_refs() {
    let mut block = empty_block();
    block.stringtable = vec![
        Vec::new(),
        b"natural".to_vec(),
        b"coastline".to_vec(),
        b"name".to_vec(),
        b"Shore".to_vec(),
    ];
    let mut group = empty_group();
    group.ways.push(Way {
        id: 1,
        keys: vec![1, 3],
        vals: vec![2, 4],
        refs: vec![100, 5, -3],
        info: None,
    });
    block.groups.push(group);
    let mut input: Vec<u8> = Vec::new();
    frame_block(&block, &mut input);

    let mut reader = OsmReader::from(BlobReader::from(input));
    let mut recorder = Recorder::default();
    reader.accept(&mut recorder);
    assert_eq!(recorder.errors, 0);
    assert_eq!(recorder.ways.len(), 1);
    let (id, refs, tags) = &recorder.ways[0];
    assert_eq!(*id, 1);
    assert_eq!(*refs, vec![100, 105, 102]);
    assert_eq!(
        *tags,
        vec![
            ("natural".to_string(), "coastline".to_string()),
            ("name".to_string(), "Shore".to_string()),
        ]
    );
}

#[test]
fn coastline_filter_two_passes() {
    // Input: nodes 1, 2, 3; a coastline way over nodes 1 and 2; an
    // unrelated way over node 3; one coastline relation, one other.
    let mut block = empty_block();
    block.stringtable = vec![
        Vec::new(),
        b"natural".to_vec(),
        b"coastline".to_vec(),
        b"highway".to_vec(),
        b"primary".to_vec(),
    ];
    let mut node_group = empty_group();
    node_group.dense = Some(DenseNodes {
        id: vec![1, 1, 1],
        lat: vec![10, 10, 10],
        lon: vec![10, 10, 10],
        keys_vals: Vec::new(),
        denseinfo: None,
    });
    block.groups.push(node_group);
    let mut way_group = empty_group();
    way_group.ways.push(Way {
        id: 10,
        keys: vec![1],
        vals: vec![2],
        refs: vec![1, 1],
        info: None,
    });
    way_group.ways.push(Way {
        id: 11,
        keys: vec![3],
        vals: vec![4],
        refs: vec![3],
        info: None,
    });
    block.groups.push(way_group);
    let mut relation_group = empty_group();
    relation_group.relations.push(Relation {
        id: 20,
        keys: vec![1],
        vals: vec![2],
        roles_sid: vec![0],
        memids: vec![10],
        types: vec![1],
        info: None,
    });
    relation_group.relations.push(Relation {
        id: 21,
        keys: vec![3],
        vals: vec![4],
        roles_sid: vec![0],
        memids: vec![11],
        types: vec![1],
        info: None,
    });
    block.groups.push(relation_group);
    let mut input: Vec<u8> = Vec::new();
    frame_block(&block, &mut input);

    // Pass one: collect the node ids coastline ways reference.
    let mut reader = OsmReader::from(BlobReader::from(input));
    let mut collector = NodeCollectionVisitor::new();
    reader.accept(&mut collector);
    assert!(collector.nodes.contains(&1));
    assert!(collector.nodes.contains(&2));
    assert!(!collector.nodes.contains(&3));

    // Pass two: re-emit only the collected subset.
    let writer = OsmWriterVisitor::new(false);
    let mut filter = CoastlineVisitor::new(writer, collector.nodes);
    reader.accept(&mut filter);
    let output = filter.into_parent().into_bytes();

    let mut reader2 = OsmReader::from(BlobReader::from(output));
    let mut recorder = Recorder::default();
    reader2.accept(&mut recorder);
    assert_eq!(recorder.errors, 0);
    let node_ids: Vec<i64> = recorder.nodes.iter().map(|n| n.0).collect();
    assert_eq!(node_ids, vec![1, 2]);
    let way_ids: Vec<i64> = recorder.ways.iter().map(|w| w.0).collect();
    assert_eq!(way_ids, vec![10]);
    assert_eq!(recorder.ways[0].1, vec![1, 2]);
    let relation_ids: Vec<i64> = recorder.relations.iter().map(|r| r.0).collect();
    assert_eq!(relation_ids, vec![20]);
}

#[test]
fn truncated_body_reports_error_once() {
    let mut header: Vec<u8> = Vec::new();
    encode_blob_header(&mut header, b"OSMData", 100);
    let mut input: Vec<u8> = vec![0, 0, 0, header.len() as u8];
    input.extend_from_slice(&header);
    input.extend_from_slice(&[0u8; 40]);

    let mut reader = OsmReader::from(BlobReader::from(input));
    let mut recorder = Recorder::default();
    reader.accept(&mut recorder);
    assert_eq!(recorder.errors, 1);
    assert_eq!(recorder.ends, 1);
    assert_eq!(recorder.nodes.len(), 0);
}

#[test]
fn writer_reader_roundtrip_preserves_entities() {
    // Feed entities with metadata through the writer, read the bytes
    // back, and compare the emitted stream.
    let mut writer = OsmWriterVisitor::new(true);
    writer.visit_node(500, 123_456_789, -987_654_321).expect("node");
    writer.visit_info(2, 1_500_000_000_000, 44, 9, 3, true).expect("info");
    writer.visit_node(501, 123_456_889, -987_654_221).expect("node");
    writer.visit_info(3, 1_500_000_123_000, 45, 9, 3, false).expect("info");
    writer
        .visit_way(
            600,
            vec![NodeReference { id: 500 }, NodeReference { id: 501 }],
            vec![("natural".to_string(), "coastline".to_string())],
        )
        .expect("way");
    writer.visit_info(1, 1_500_000_000_000, 44, 9, 3, true).expect("info");
    writer.end().expect("end");
    let bytes = writer.into_bytes();

    let mut reader = OsmReader::from(BlobReader::from(bytes));
    let mut recorder = Recorder::default();
    reader.accept(&mut recorder);
    assert_eq!(recorder.errors, 0);
    assert_eq!(recorder.nodes.len(), 2);
    let (id0, lat0, lon0) = recorder.nodes[0];
    assert_eq!(id0, 500);
    assert!(123_456_789 - lat0 < 100 && lat0 <= 123_456_789);
    assert!(lon0 <= -987_654_321 && -987_654_321 - lon0 < 100);
    assert_eq!(recorder.ways.len(), 1);
    assert_eq!(recorder.ways[0].0, 600);
    assert_eq!(recorder.ways[0].1, vec![500, 501]);
    assert_eq!(
        recorder.ways[0].2,
        vec![("natural".to_string(), "coastline".to_string())]
    );
    // Metadata: versions, changesets, uids, user ids, visibility exact;
    // timestamps truncated to whole seconds.
    assert_eq!(recorder.infos[0], (2, 1_500_000_000_000, 44, 9, 3, true));
    assert_eq!(recorder.infos[1], (3, 1_500_000_123_000, 45, 9, 3, false));
    assert_eq!(recorder.infos[2], (1, 1_500_000_000_000, 44, 9, 3, true));
}
