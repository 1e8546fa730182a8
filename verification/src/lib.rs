//! A small Parquet / Thrift-compact toolkit: a hand-written Thrift compact
//! encoder and the same struct written through the Thrift library, the
//! decoders for Parquet data pages, the footer and page walking logic of a
//! Parquet reader, the JSON views of a file's metadata and pages, the Arrow
//! schema kept in a file's metadata, and S3
//! locations, each with its contract proved by Verus.

pub mod varint;
pub mod compact;
pub mod user_thrift;
pub mod errors;
pub mod format;
pub mod decoders;
pub mod reader;
pub mod summary;
pub mod pages;
pub mod metadata;
pub mod display;
pub mod s3;
pub mod batches;
pub mod json;
