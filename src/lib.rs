//! A streaming codec for binary little-endian PLY point files: header
//! parsing, a per-property record layout compiled once per file, batch
//! decoding, and the writer's header, records and vertex-count field.

pub mod batch;
pub mod bytes;
pub mod encode;
pub mod header;
pub mod layout;
pub mod number;
pub mod pts;
pub mod reader;
pub mod roundtrip;
pub mod scalar;
pub mod writer;
