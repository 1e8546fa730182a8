//! The parts of the decoded file metadata that the page reader reads and
//! the metadata views show, as plain values: the schema fields with their
//! repetition, for each column chunk of each row group its type, codec,
//! value count, page offsets and path, and the further fields and `Debug`
//! renderings that the JSON views of the metadata show.

use vstd::prelude::*;
use parquet_format::{ColumnMetaData, FileMetaData, RowGroup, SchemaElement, Statistics};
use thrift::protocol::TCompactInputProtocol;
use crate::format::{PageCodec, FieldRepetition, PhysicalType};

verus! {

/// A schema field: its name and repetition.
#[derive(Debug, Clone)]
pub struct SchemaNode {
    pub name: String,
    pub repetition_type: Option<FieldRepetition>,
}

/// The metadata of a column chunk that the page reader reads.
#[derive(Debug, Clone)]
pub struct ColumnMeta {
    pub physical_type: PhysicalType,
    pub codec: PageCodec,
    pub num_values: i64,
    pub data_page_offset: i64,
    pub dictionary_page_offset: Option<i64>,
    pub path_in_schema: Vec<String>,
}

/// A column chunk; its metadata may be missing.
#[derive(Debug, Clone)]
pub struct ColumnChunkSummary {
    pub meta_data: Option<ColumnMeta>,
}

/// Statistics of a column chunk or a page: its minimum and maximum values
/// (as their encoded bytes) and its null and distinct counts.
#[derive(Debug, Clone, Default)]
pub struct StatisticsInfo {
    pub max_value: Option<Vec<u8>>,
    pub min_value: Option<Vec<u8>>,
    pub null_count: Option<i64>,
    pub distinct_count: Option<i64>,
}

/// A schema element as the metadata view shows it; its optional enum
/// fields as their `Debug` renderings (`Some(..)` or `None`).
#[derive(Debug, Clone, Default)]
pub struct SchemaFacts {
    pub physical_type: String,
    pub type_length: Option<i32>,
    pub repetition_type: String,
    pub name: String,
    pub num_children: Option<i32>,
    pub converted_type: String,
    pub scale: Option<i32>,
    pub precision: Option<i32>,
    pub field_id: Option<i32>,
    pub logical_type: String,
}

/// Where a column chunk's data lies.
#[derive(Debug, Clone, Default)]
pub struct ColumnChunkFacts {
    pub file_path: Option<String>,
    pub file_offset: i64,
}

/// A row group's size, and where each of its column chunks lies.
#[derive(Debug, Clone, Default)]
pub struct RowGroupFacts {
    pub num_rows: i64,
    pub total_byte_size: i64,
    pub columns: Vec<ColumnChunkFacts>,
}

/// The file-level fields of the metadata; the column orders and the
/// encryption algorithm as their `Debug` renderings.
#[derive(Debug, Clone, Default)]
pub struct FileFacts {
    pub version: i32,
    pub num_rows: i64,
    pub created_by: Option<String>,
    pub column_orders: Option<Vec<String>>,
    pub encryption_algorithm: String,
    pub footer_signing_key_metadata: Option<Vec<u8>>,
    pub row_groups: Vec<RowGroupFacts>,
}

/// The fields of a column chunk's metadata that the row group view shows
/// besides those the reader reads; encodings as their `Debug` renderings.
#[derive(Debug, Clone, Default)]
pub struct ColumnMetaFacts {
    pub encodings: Vec<String>,
    pub total_uncompressed_size: i64,
    pub total_compressed_size: i64,
    pub index_page_offset: Option<i64>,
    pub statistics: Option<StatisticsInfo>,
}

/// The file metadata that the reader reads: the schema fields, the column
/// chunks of each row group, and the key/value pairs; and the fields its
/// JSON views show.
#[derive(Debug, Clone)]
pub struct FileSummary {
    pub schema: Vec<SchemaNode>,
    pub row_groups: Vec<Vec<ColumnChunkSummary>>,
    pub key_value_metadata: Option<Vec<(String, Option<String>)>>,
    pub facts: FileFacts,
    pub schema_facts: Vec<SchemaFacts>,
    /// For each column chunk of each row group, the further fields of its
    /// metadata, where it has metadata.
    pub column_meta_facts: Vec<Vec<Option<ColumnMetaFacts>>>,
}

impl FileSummary {
    /// The row groups agree in number, and in their column chunks and the
    /// presence of their metadata, across the parts of the summary.
    pub open spec fn wf(&self) -> bool {
        &&& self.facts.row_groups@.len() == self.row_groups@.len()
        &&& self.column_meta_facts@.len() == self.row_groups@.len()
        &&& forall|i: int|
            0 <= i < self.row_groups@.len() ==> {
                &&& (#[trigger] self.row_groups@[i])@.len() == self.facts.row_groups@[i].columns@.len()
                &&& self.row_groups@[i]@.len() == self.column_meta_facts@[i]@.len()
                &&& forall|j: int|
                    0 <= j < self.row_groups@[i]@.len() ==> ((#[trigger] self.row_groups@[i]@[j]).meta_data is Some
                        <==> self.column_meta_facts@[i]@[j] is Some)
            }
    }
}

/// What `FileMetaData::read_from_in_protocol` does with Thrift compact bytes.
pub enum MetadataRead {
    /// It decodes metadata, of which the reader reads this summary.
    Decoded(FileSummary),
    /// It fails; the message of its error.
    Unreadable(Seq<char>),
    /// It panics: a field id that overflows 16 bits, or a list whose size
    /// is negative.
    Panics,
}

/// What `FileMetaData::read_from_in_protocol` does with `bytes`.
pub uninterp spec fn file_metadata_summary(bytes: Seq<u8>) -> MetadataRead;

/// Whether `FileMetaData::read_from_in_protocol` returns on `bytes`, with
/// its metadata or an error, rather than panicking.  No call can test this
/// beforehand: it is a demand on the bytes handed to the reader.
pub open spec fn metadata_decoder_returns(bytes: Seq<u8>) -> bool {
    !(file_metadata_summary(bytes) is Panics)
}

/// The metadata that `FileMetaData::read_from_in_protocol` decodes from
/// `bytes`, where it decodes any.
pub uninterp spec fn file_metadata_decoded(bytes: Seq<u8>) -> FileMetaData;

/// `parquet_format::FileMetaData::read_from_in_protocol` over a
/// `TCompactInputProtocol` reading `bytes`, with the schema fields and the
/// key/value pairs of the decoded metadata copied out (repetitions by their
/// Thrift numbers, which name known variants); its error is carried as its
/// message.  What it decodes depends on the bytes alone.  It panics on a
/// field id that overflows 16 bits and on a negative list size; those
/// inputs are left out.
#[verifier::external_body]
pub(crate) fn thrift_read_file_metadata(bytes: &[u8]) -> (r: Result<
    (FileMetaData, Vec<SchemaNode>, Option<Vec<(String, Option<String>)>>),
    String,
>)
    requires
        metadata_decoder_returns(bytes@),
    ensures
        r is Ok <==> file_metadata_summary(bytes@) is Decoded,
        r matches Ok((md, schema, kv)) ==> md == file_metadata_decoded(bytes@) && schema
            == file_metadata_summary(bytes@)->Decoded_0.schema && kv == file_metadata_summary(
            bytes@,
        )->Decoded_0.key_value_metadata,
        r matches Err(m) ==> file_metadata_summary(bytes@) == MetadataRead::Unreadable(m@),
{
    let md = FileMetaData::read_from_in_protocol(&mut TCompactInputProtocol::new(&mut &*bytes)).map_err(|e| e.to_string())?;
    let node = |e: &SchemaElement| SchemaNode { name: e.name.clone(), repetition_type: e.repetition_type.and_then(|r| FieldRepetition::from_thrift(r as i32)) };
    let schema = md.schema.iter().map(node).collect();
    let kv = md.key_value_metadata.as_ref().map(|v| v.iter().map(|p| (p.key.clone(), p.value.clone())).collect());
    Ok((md, schema, kv))
}

/// `parquet_format::FileMetaData::read_from_in_protocol` over `bytes` once
/// more, with the column chunks of each row group copied out (type and
/// codec by their Thrift numbers, which name known variants).  The decoded
/// metadata is opaque here, so its column chunks are read from a decoding
/// of their own; it is called only on bytes that decode.
#[verifier::external_body]
pub(crate) fn thrift_read_column_chunks(bytes: &[u8]) -> (r: Vec<Vec<ColumnChunkSummary>>)
    requires
        file_metadata_summary(bytes@) is Decoded,
    ensures
        r == file_metadata_summary(bytes@)->Decoded_0.row_groups,
{
    let md = FileMetaData::read_from_in_protocol(&mut TCompactInputProtocol::new(&mut &*bytes)).unwrap();
    let meta = |m: &ColumnMetaData| ColumnMeta { physical_type: PhysicalType::from_thrift(m.type_ as i32).unwrap(), codec: PageCodec::from_thrift(m.codec as i32).unwrap(), num_values: m.num_values, data_page_offset: m.data_page_offset, dictionary_page_offset: m.dictionary_page_offset, path_in_schema: m.path_in_schema.clone() };
    let group = |g: &RowGroup| g.columns.iter().map(|c| ColumnChunkSummary { meta_data: c.meta_data.as_ref().map(meta) }).collect();
    md.row_groups.iter().map(group).collect()
}

/// `parquet_format::FileMetaData::read_from_in_protocol` over `bytes` once
/// more, with its file-level fields copied out (column orders and the
/// encryption algorithm rendered by their `Debug`), and for each row group
/// its size and where its column chunks lie.  It is called only on bytes
/// that decode; the row groups and their column chunks are those of the
/// reader's summary.
#[verifier::external_body]
pub(crate) fn thrift_read_file_facts(bytes: &[u8]) -> (r: FileFacts)
    requires
        file_metadata_summary(bytes@) is Decoded,
    ensures
        r == file_metadata_summary(bytes@)->Decoded_0.facts,
        r.row_groups@.len() == file_metadata_summary(bytes@)->Decoded_0.row_groups@.len(),
        forall|i: int| 0 <= i < r.row_groups@.len() ==> (#[trigger] r.row_groups@[i]).columns@.len()
            == file_metadata_summary(bytes@)->Decoded_0.row_groups@[i]@.len(),
{
    let md = FileMetaData::read_from_in_protocol(&mut TCompactInputProtocol::new(&mut &*bytes)).unwrap();
    let group = |g: &RowGroup| RowGroupFacts { num_rows: g.num_rows, total_byte_size: g.total_byte_size, columns: g.columns.iter().map(|c| ColumnChunkFacts { file_path: c.file_path.clone(), file_offset: c.file_offset }).collect() };
    let orders = md.column_orders.as_ref().map(|o| o.iter().map(|c| format!("{:?}", c)).collect());
    FileFacts { version: md.version, num_rows: md.num_rows, created_by: md.created_by.clone(), column_orders: orders, encryption_algorithm: format!("{:?}", md.encryption_algorithm), footer_signing_key_metadata: md.footer_signing_key_metadata.clone(), row_groups: md.row_groups.iter().map(group).collect() }
}

/// `parquet_format::FileMetaData::read_from_in_protocol` over `bytes` once
/// more, with each schema element copied out, its optional enum fields
/// rendered by their `Debug`.  It is called only on bytes that decode.
#[verifier::external_body]
pub(crate) fn thrift_read_schema_facts(bytes: &[u8]) -> (r: Vec<SchemaFacts>)
    requires
        file_metadata_summary(bytes@) is Decoded,
    ensures
        r == file_metadata_summary(bytes@)->Decoded_0.schema_facts,
{
    let md = FileMetaData::read_from_in_protocol(&mut TCompactInputProtocol::new(&mut &*bytes)).unwrap();
    let d = |e: &SchemaElement| SchemaFacts { physical_type: format!("{:?}", e.type_), type_length: e.type_length, repetition_type: format!("{:?}", e.repetition_type), name: e.name.clone(), num_children: e.num_children, converted_type: format!("{:?}", e.converted_type), scale: e.scale, precision: e.precision, field_id: e.field_id, logical_type: format!("{:?}", e.logical_type) };
    md.schema.iter().map(d).collect()
}

/// `parquet_format::FileMetaData::read_from_in_protocol` over `bytes` once
/// more, with, for each column chunk of each row group that has metadata,
/// the encodings (by their `Debug`), total sizes, index page offset and
/// statistics of that metadata.  It is called only on bytes that decode;
/// the row groups, their column chunks and which of them have metadata are
/// those of the reader's summary.
#[verifier::external_body]
pub(crate) fn thrift_read_column_meta_facts(bytes: &[u8]) -> (r: Vec<Vec<Option<ColumnMetaFacts>>>)
    requires
        file_metadata_summary(bytes@) is Decoded,
    ensures
        r == file_metadata_summary(bytes@)->Decoded_0.column_meta_facts,
        r@.len() == file_metadata_summary(bytes@)->Decoded_0.row_groups@.len(),
        forall|i: int| 0 <= i < r@.len() ==> (#[trigger] r@[i])@.len() == file_metadata_summary(
            bytes@,
        )->Decoded_0.row_groups@[i]@.len(),
        forall|i: int, j: int| 0 <= i < r@.len() && 0 <= j < r@[i]@.len() ==> ((#[trigger] r@[i]@[j]) is Some
            <==> file_metadata_summary(bytes@)->Decoded_0.row_groups@[i]@[j].meta_data is Some),
{
    let md = FileMetaData::read_from_in_protocol(&mut TCompactInputProtocol::new(&mut &*bytes)).unwrap();
    let st = |s: &Statistics| StatisticsInfo { max_value: s.max_value.clone(), min_value: s.min_value.clone(), null_count: s.null_count, distinct_count: s.distinct_count };
    let meta = |m: &ColumnMetaData| ColumnMetaFacts { encodings: m.encodings.iter().map(|e| format!("{:?}", e)).collect(), total_uncompressed_size: m.total_uncompressed_size, total_compressed_size: m.total_compressed_size, index_page_offset: m.index_page_offset, statistics: m.statistics.as_ref().map(st) };
    md.row_groups.iter().map(|g| g.columns.iter().map(|c| c.meta_data.as_ref().map(meta)).collect()).collect()
}

} // verus!
