//! Wire, framing, delta and builder behaviour on concrete values.

use osm_pbf::blob::{Blob, BlobType, MAX_BODY_LENGTH};
use osm_pbf::delta::{delta32_decode, delta32_encode, delta_decode, delta_encode};
use osm_pbf::error::{IoErrorKind, PbfParseError};
use osm_pbf::fileformat::encode_blob_header;
use osm_pbf::osm::EntityInfo;
use osm_pbf::osmformat::{encode_block, parse_block};
use osm_pbf::parser::Parser;
use osm_pbf::wire::{read_varint, write_varint, zigzag_decode, zigzag_encode};
use osm_pbf::writer::PrimitiveBlockBuilder;

fn info(version: i32, timestamp: i64) -> EntityInfo {
    EntityInfo {
        version,
        timestamp,
        changeset: 7,
        uid: 21,
        user_sid: 3,
        visible: true,
    }
}

#[test]
fn varint_roundtrip() {
    let values: Vec<u64> = vec![0, 1, 127, 128, 300, 0xFFFF_FFFF, u64::MAX];
    for &v in &values {
        let mut out: Vec<u8> = Vec::new();
        write_varint(&mut out, v);
        let (decoded, end) = read_varint(out.as_slice(), 0).expect("varint parses");
        assert_eq!(decoded, v);
        assert_eq!(end, out.len());
    }
    let mut out: Vec<u8> = Vec::new();
    write_varint(&mut out, 300);
    assert_eq!(out, vec![0xAC, 0x02]);
}

#[test]
fn varint_truncated_is_refused() {
    assert!(read_varint(&[0x80], 0).is_none());
    assert!(read_varint(&[], 0).is_none());
}

#[test]
fn zigzag_roundtrip() {
    for &v in &[0i64, -1, 1, -2, 2, i64::MIN, i64::MAX] {
        assert_eq!(zigzag_decode(zigzag_encode(v)), v);
    }
    assert_eq!(zigzag_encode(-1), 1);
    assert_eq!(zigzag_encode(1), 2);
}

#[test]
fn delta_roundtrip_non_monotone() {
    let vals: Vec<i64> = vec![100, 5, -3, i64::MAX, i64::MIN, 0];
    let deltas = delta_encode(&vals);
    assert_eq!(delta_decode(&deltas), vals);
}

#[test]
fn delta32_roundtrip_non_monotone() {
    let vals: Vec<i32> = vec![7, -7, i32::MAX, i32::MIN, 0];
    let deltas = delta32_encode(&vals);
    assert_eq!(delta32_decode(&deltas), vals);
}

#[test]
fn blob_write_then_parse_recovers_payload() {
    let payload: Vec<u8> = (0u16..600).map(|i| (i % 251) as u8).collect();
    let blob = Blob::new(BlobType::DATA, payload.clone());
    let mut out: Vec<u8> = Vec::new();
    blob.write(&mut out).expect("frame fits");
    let (parsed, next) = Blob::parse(out.as_slice(), 0).expect("frame parses");
    assert_eq!(next, out.len());
    assert!(matches!(parsed.data_type, BlobType::DATA));
    assert_eq!(parsed.data, payload);
}

#[test]
fn blob_header_type_string_is_osmheader() {
    let blob = Blob::new(BlobType::HEADER, vec![1, 2, 3]);
    let mut out: Vec<u8> = Vec::new();
    blob.write(&mut out).expect("frame fits");
    // The serialized BlobHeader carries the literal type string.
    let header_len = out[3] as usize;
    let header = &out[4..4 + header_len];
    let needle = b"OSMHeader";
    assert!(header.windows(needle.len()).any(|w| w == needle));
}

#[test]
fn oversize_declared_header_is_refused() {
    // 4-byte length prefix declaring a 64 KiB header.
    let input: Vec<u8> = vec![0x00, 0x01, 0x00, 0x00, 0x12, 0x34];
    match Blob::parse(input.as_slice(), 0) {
        Err(PbfParseError::InvalidHeaderLength(n)) => assert_eq!(n, 0x10000),
        other => panic!("expected InvalidHeaderLength, got {:?}", other),
    }
}

#[test]
fn oversize_declared_body_is_refused() {
    let mut header: Vec<u8> = Vec::new();
    encode_blob_header(&mut header, b"OSMData", (MAX_BODY_LENGTH + 1) as i32);
    let mut input: Vec<u8> = vec![0, 0, 0, header.len() as u8];
    input.extend_from_slice(&header);
    input.extend_from_slice(&[0u8; 64]);
    match Blob::parse(input.as_slice(), 0) {
        Err(PbfParseError::InvalidBodyLength(n)) => assert_eq!(n, MAX_BODY_LENGTH + 1),
        other => panic!("expected InvalidBodyLength, got {:?}", other),
    }
}

#[test]
fn truncated_body_is_an_io_error() {
    // The header declares a 100-byte body; only 40 bytes follow.
    let mut header: Vec<u8> = Vec::new();
    encode_blob_header(&mut header, b"OSMData", 100);
    let mut input: Vec<u8> = vec![0, 0, 0, header.len() as u8];
    input.extend_from_slice(&header);
    input.extend_from_slice(&[0u8; 40]);
    match Blob::parse(input.as_slice(), 0) {
        Err(PbfParseError::Io(IoErrorKind::UnexpectedEof)) => {},
        other => panic!("expected Io(UnexpectedEof), got {:?}", other),
    }
}

#[test]
fn unknown_blob_type_is_refused() {
    let payload: Vec<u8> = vec![9, 9, 9];
    let blob = Blob::new(BlobType::DATA, payload);
    let mut out: Vec<u8> = Vec::new();
    blob.write(&mut out).expect("frame fits");
    // Corrupt the type string inside the header ("OSMData" follows the
    // field key and length).
    let needle = b"OSMData";
    let at = (0..out.len() - needle.len())
        .find(|&i| &out[i..i + needle.len()] == needle)
        .expect("type string present");
    out[at] = b'X';
    match Blob::parse(out.as_slice(), 0) {
        Err(PbfParseError::InvalidBlobType) => {},
        other => panic!("expected InvalidBlobType, got {:?}", other),
    }
}

#[test]
fn block_roundtrip_through_bytes() {
    let mut builder = PrimitiveBlockBuilder::new(true);
    builder.append_node(42, 12_345, -9_876, info(3, 123_456));
    builder.append_way(
        7,
        vec![
            osm_pbf::osm::NodeReference { id: 100 },
            osm_pbf::osm::NodeReference { id: 105 },
        ],
        vec![("natural".to_string(), "coastline".to_string())],
        info(1, 0),
    );
    builder.complete();
    let blocks = builder.take_blocks();
    assert_eq!(blocks.len(), 1);
    let mut bytes: Vec<u8> = Vec::new();
    encode_block(&mut bytes, &blocks[0]);
    let parsed = parse_block(bytes.as_slice(), 0, bytes.len()).expect("block parses");
    assert_eq!(parsed.lat_offset, blocks[0].lat_offset);
    assert_eq!(parsed.lon_offset, blocks[0].lon_offset);
    assert_eq!(parsed.granularity, 100);
    assert_eq!(parsed.date_granularity, 1000);
    assert_eq!(parsed.stringtable, blocks[0].stringtable);
    assert_eq!(parsed.groups.len(), 2);
    let dense = parsed.groups[0].dense.as_ref().expect("dense group");
    let built = blocks[0].groups[0].dense.as_ref().expect("dense group");
    assert_eq!(dense.id, built.id);
    assert_eq!(dense.lat, built.lat);
    assert_eq!(dense.lon, built.lon);
    let way = &parsed.groups[1].ways[0];
    assert_eq!(way.id, 7);
    assert_eq!(way.refs, vec![100, 5]);
    assert_eq!(way.keys, blocks[0].groups[1].ways[0].keys);
}

#[test]
fn quantization_floors_to_grid() {
    let mut builder = PrimitiveBlockBuilder::new(false);
    // One node: quantization subtracts the offset (its own coordinate),
    // so it decodes exactly; a second makes the remainder visible.
    builder.append_node(1, 12_399, 50, info(1, 0));
    builder.append_node(2, 12_501, 150, info(1, 0));
    builder.complete();
    let blocks = builder.take_blocks();
    let dense = blocks[0].groups[0].dense.as_ref().expect("dense group");
    let lats = delta_decode(&dense.lat);
    let lat_offset = blocks[0].lat_offset;
    assert_eq!(lat_offset, 12_399);
    let decoded0 = lat_offset + lats[0] * 100;
    let decoded1 = lat_offset + lats[1] * 100;
    assert_eq!(decoded0, 12_399);
    assert_eq!(decoded1, 12_499);
    assert!(12_399 - decoded0 < 100);
    assert!(12_501 - decoded1 < 100);
}

#[test]
fn string_table_unique_and_indices_in_range() {
    let mut builder = PrimitiveBlockBuilder::new(false);
    let tags = vec![
        ("natural".to_string(), "coastline".to_string()),
        ("name".to_string(), "Shore".to_string()),
        ("natural".to_string(), "coastline".to_string()),
    ];
    builder.append_way(1, vec![], tags.clone(), info(1, 0));
    builder.append_relation(2, vec![], tags, info(1, 0));
    builder.complete();
    let blocks = builder.take_blocks();
    let table = &blocks[0].stringtable;
    assert_eq!(table[0], Vec::<u8>::new());
    assert_eq!(table.len(), 5);
    for i in 0..table.len() {
        for j in 0..i {
            assert_ne!(table[i], table[j], "duplicate table entry");
        }
    }
    for g in &blocks[0].groups {
        for w in &g.ways {
            for &k in w.keys.iter().chain(w.vals.iter()) {
                assert!((k as usize) < table.len());
            }
        }
        for r in &g.relations {
            for &k in r.keys.iter().chain(r.vals.iter()) {
                assert!((k as usize) < table.len());
            }
        }
    }
}

#[test]
fn batch_bound_seals_at_limit() {
    let mut builder = PrimitiveBlockBuilder::new(false);
    for i in 0..8001i64 {
        builder.append_node(i, i, i, info(1, 0));
    }
    builder.complete();
    let blocks = builder.take_blocks();
    assert_eq!(blocks.len(), 2);
    let first = blocks[0].groups[0].dense.as_ref().expect("dense group");
    assert_eq!(first.id.len(), 8000);
    let second = blocks[1].groups[0].dense.as_ref().expect("dense group");
    assert_eq!(second.id.len(), 1);
}

#[test]
fn metadata_scaled_and_preserved() {
    let mut builder = PrimitiveBlockBuilder::new(true);
    builder.append_node(5, 1000, 1000, info(9, 1_699_999_999_123));
    builder.complete();
    let blocks = builder.take_blocks();
    let dense = blocks[0].groups[0].dense.as_ref().expect("dense group");
    let di = dense.denseinfo.as_ref().expect("dense info");
    assert_eq!(di.version, vec![9]);
    let ts = delta_decode(&di.timestamp);
    assert_eq!(ts[0] * 1000, 1_699_999_999_000);
    assert_eq!(delta_decode(&di.changeset), vec![7]);
    assert_eq!(delta32_decode(&di.uid), vec![21]);
    assert_eq!(di.visible, vec![true]);
}

#[test]
fn parser_reads_length_and_message() {
    let mut p = Parser::of(vec![0, 0, 1, 2, 0xAA, 0xBB, 0xCC]);
    assert_eq!(p.read_u32().expect("length"), 0x102);
    assert_eq!(p.read_message(2).expect("message"), vec![0xAA, 0xBB]);
    match p.read_message(2) {
        Err(PbfParseError::Io(IoErrorKind::UnexpectedEof)) => {},
        other => panic!("expected truncation, got {:?}", other),
    }
}

#[test]
fn blob_iterator_steps_frames() {
    let mut out: Vec<u8> = Vec::new();
    Blob::new(BlobType::HEADER, vec![1]).write(&mut out).expect("frame fits");
    Blob::new(BlobType::DATA, vec![2, 3]).write(&mut out).expect("frame fits");
    let mut it = osm_pbf::iterator::BlobIterator::of(Parser::of(out));
    let first = it.next().expect("first blob");
    assert!(matches!(first.data_type, BlobType::HEADER));
    assert_eq!(first.data, vec![1]);
    let second = it.next().expect("second blob");
    assert!(matches!(second.data_type, BlobType::DATA));
    assert_eq!(second.data, vec![2, 3]);
    assert!(it.next().is_none());
}

#[test]
fn non_ascii_tags_roundtrip() {
    let mut builder = PrimitiveBlockBuilder::new(false);
    builder.append_way(
        1,
        vec![],
        vec![("name".to_string(), "Caf\u{e9} \u{6d77}".to_string())],
        info(1, 0),
    );
    builder.complete();
    let blocks = builder.take_blocks();
    let strings = osm_pbf::osm::parse_string_table(&blocks[0].stringtable);
    assert!(strings.iter().any(|s| s == "Caf\u{e9} \u{6d77}"));
}

#[test]
fn unpacked_repeated_scalars_accepted() {
    // A way whose references arrive as three unpacked varint fields
    // rather than one packed run: the wire format allows both.
    let mut bytes: Vec<u8> = Vec::new();
    osm_pbf::wire::write_varint_field(&mut bytes, 1, 7);
    osm_pbf::wire::write_varint_field(&mut bytes, 8, osm_pbf::wire::zigzag_encode(100));
    osm_pbf::wire::write_varint_field(&mut bytes, 8, osm_pbf::wire::zigzag_encode(5));
    osm_pbf::wire::write_varint_field(&mut bytes, 8, osm_pbf::wire::zigzag_encode(-3));
    osm_pbf::wire::write_varint_field(&mut bytes, 2, 1);
    let way = osm_pbf::osmformat::parse_way(bytes.as_slice(), 0, bytes.len())
        .expect("way parses");
    assert_eq!(way.id, 7);
    assert_eq!(way.refs, vec![100, 5, -3]);
    assert_eq!(way.keys, vec![1]);
}
