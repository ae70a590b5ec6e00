//! A streaming codec for the OpenStreetMap PBF exchange format: framed,
//! compressed blobs around protobuf-coded primitive blocks, read and
//! written through a visitor API, with an encoding block builder that
//! batches entities and seals self-contained blocks.

use vstd::prelude::*;

pub mod blob;
pub mod coastline;
pub mod delta;
pub mod error;
pub mod fileformat;
pub mod iterator;
pub mod laws;
pub mod osm;
pub mod osmformat;
pub mod parser;
pub mod reader;
pub mod strings;
pub mod visitor;
pub mod wire;
pub mod writer;
pub mod zlib;

pub use blob::Blob;
pub use blob::BlobType;
pub use coastline::CoastlineVisitor;
pub use coastline::NodeCollectionVisitor;
pub use error::IoErrorKind;
pub use error::PbfParseError;
pub use iterator::BlobIterator;
pub use iterator::OsmIterator;
pub use osm::EntityInfo;
pub use osm::HeaderBlock;
pub use osm::MemberReference;
pub use osm::NodeReference;
pub use osm::OsmBlockParser;
pub use osm::OsmEntityType;
pub use osm::OsmReader;
pub use parser::Parser;
pub use reader::BlobReader;
pub use visitor::BlobVisitor;
pub use visitor::OsmVisitor;
pub use writer::OsmWriterVisitor;
pub use writer::PrimitiveBlockBuilder;

verus! {

} // verus!
