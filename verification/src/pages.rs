//! Walking the pages of a column chunk: each page is a Thrift-encoded page
//! header followed by its (possibly compressed) data.  Dictionary pages
//! give the column's dictionary; data pages hold definition levels and then
//! values.  The walk stops once the column's value count is reached.

use vstd::prelude::*;
use parquet_format::{PageHeader, Statistics};
use thrift::protocol::TCompactInputProtocol;
use crate::decoders::{
    lemma_hybrid_bounds, decode_hybrid_levels, decode_page_values, decompress_page, decompress_spec, hybrid_decode,
    page_decode, reports, Decoded, Decompressed, Fault, PageValues, PageValuesView,
};
use crate::errors::{
    decimal, eof_message, push_decimal, push_str, unexpected_eof, ParquetDemoError,
};
use crate::format::{Encoding, FieldRepetition};
use crate::reader::{is_bad_seek, is_eof};
use crate::json::{Json, JsonValue};
use crate::metadata::{page_header_json, page_header_to_json};
use crate::summary::{ColumnChunkSummary, ColumnMeta, FileSummary, SchemaNode, StatisticsInfo};

verus! {

/// The fields of a page header that the page walk reads; encodings as their
/// Thrift numbers.
#[derive(Debug, Clone, Copy)]
pub struct PageHeaderSummary {
    pub page_type: i32,
    pub uncompressed_page_size: i32,
    pub compressed_page_size: i32,
    /// Value count and encoding of a data page.
    pub data_page: Option<(i32, i32)>,
    /// Value count and encoding of a dictionary page.
    pub dictionary_page: Option<(i32, i32)>,
    /// Value count of a version 2 data page.
    pub data_page_v2_num_values: Option<i32>,
}

/// What `PageHeader::read_from_in_protocol` does with the start of some
/// bytes.
pub enum HeaderRead {
    /// It reads a header, of which the walk reads these fields, taking this
    /// many bytes.
    Read(PageHeaderSummary, nat),
    /// It fails; the message of its error.
    Unreadable(Seq<char>),
    /// It panics: a field id that overflows 16 bits, or a list whose size
    /// is negative.
    Panics,
}

/// What `PageHeader::read_from_in_protocol` does with the start of `bytes`.
pub uninterp spec fn thrift_page_header(bytes: Seq<u8>) -> HeaderRead;

/// A data page header's fields in the page view; encodings by their
/// `Debug` renderings.
#[derive(Debug, Clone)]
pub struct DataPageDetails {
    pub num_values: i32,
    pub encoding: String,
    pub definition_level_encoding: String,
    pub repetition_level_encoding: String,
    pub statistics: Option<StatisticsInfo>,
}

/// A dictionary page header's fields in the page view.
#[derive(Debug, Clone)]
pub struct DictionaryPageDetails {
    pub num_values: i32,
    pub encoding: String,
    pub is_sorted: Option<bool>,
}

/// A version 2 data page header's fields in the page view.
#[derive(Debug, Clone)]
pub struct DataPageV2Details {
    pub num_values: i32,
    pub num_nulls: i32,
    pub num_rows: i32,
    pub encoding: String,
    pub definition_levels_byte_length: i32,
    pub repetition_levels_byte_length: i32,
    pub is_compressed: Option<bool>,
    pub statistics: Option<StatisticsInfo>,
}

/// The fields of a page header that the page view shows besides its sizes:
/// its type by its `Debug` rendering, its checksum and its sub-headers.
#[derive(Debug, Clone)]
pub struct PageHeaderDetails {
    pub page_type: String,
    pub crc: Option<i32>,
    pub data_page: Option<DataPageDetails>,
    pub dictionary_page: Option<DictionaryPageDetails>,
    pub data_page_v2: Option<DataPageV2Details>,
}

/// The fields of the page header that `PageHeader::read_from_in_protocol`
/// reads from the start of `bytes` that the page view shows, where it reads
/// one.
pub uninterp spec fn page_header_details(bytes: Seq<u8>) -> PageHeaderDetails;

/// `parquet_format::PageHeader::read_from_in_protocol` over a
/// `TCompactInputProtocol` reading from the start of `bytes`; its error is
/// carried as its message.  What it reads depends on the bytes alone; it
/// takes at least one byte (the field stop), and the encodings it gives are
/// numbers of known encodings.  It panics on a field id that overflows 16
/// bits and on a negative list size; those inputs are left out.
#[verifier::external_body]
fn read_page_header(bytes: &[u8]) -> (r: Result<(PageHeaderSummary, usize), String>)
    requires
        !(thrift_page_header(bytes@) is Panics),
    ensures
        r matches Ok((s, n)) ==> thrift_page_header(bytes@) == HeaderRead::Read(s, n as nat)
            && 1 <= n
            <= bytes.len() && (s.data_page matches Some((_, e)) ==> Encoding::spec_from_thrift(
            e,
        ) is Some) && (s.dictionary_page matches Some((_, e)) ==> Encoding::spec_from_thrift(
            e,
        ) is Some),
        r matches Err(m) ==> thrift_page_header(bytes@) == HeaderRead::Unreadable(m@),
{
    let mut rest = bytes;
    let h = PageHeader::read_from_in_protocol(&mut TCompactInputProtocol::new(&mut rest)).map_err(
        |e| e.to_string(),
    )?;
    let s = PageHeaderSummary {
        page_type: h.type_ as i32,
        uncompressed_page_size: h.uncompressed_page_size,
        compressed_page_size: h.compressed_page_size,
        data_page: h.data_page_header.as_ref().map(|d| (d.num_values, d.encoding as i32)),
        dictionary_page: h.dictionary_page_header.as_ref().map(|d| (d.num_values, d.encoding as i32)),
        data_page_v2_num_values: h.data_page_header_v2.as_ref().map(|d| d.num_values),
    };
    Ok((s, bytes.len() - rest.len()))
}

/// `parquet_format::PageHeader::read_from_in_protocol` over the start of
/// `bytes` once more, with the page type (by its `Debug`), the checksum and
/// the data page header copied out (encodings by their `Debug`).  It reads
/// a header wherever the reader does.
#[verifier::external_body]
fn read_page_details(bytes: &[u8]) -> (r: Result<(String, Option<i32>, Option<DataPageDetails>), String>)
    requires
        !(thrift_page_header(bytes@) is Panics),
    ensures
        thrift_page_header(bytes@) is Read ==> r is Ok,
        r matches Ok((t, crc, d)) ==> t == page_header_details(bytes@).page_type && crc
            == page_header_details(bytes@).crc && d == page_header_details(bytes@).data_page,
{
    let h = PageHeader::read_from_in_protocol(&mut TCompactInputProtocol::new(&mut &*bytes)).map_err(|e| e.to_string())?;
    let st = |s: &Statistics| StatisticsInfo { max_value: s.max_value.clone(), min_value: s.min_value.clone(), null_count: s.null_count, distinct_count: s.distinct_count };
    let d = h.data_page_header.as_ref().map(|d| DataPageDetails { num_values: d.num_values, encoding: format!("{:?}", d.encoding), definition_level_encoding: format!("{:?}", d.definition_level_encoding), repetition_level_encoding: format!("{:?}", d.repetition_level_encoding), statistics: d.statistics.as_ref().map(st) });
    Ok((format!("{:?}", h.type_), h.crc, d))
}

/// `parquet_format::PageHeader::read_from_in_protocol` over the start of
/// `bytes` once more, with the dictionary page header and the version 2
/// data page header copied out (encodings by their `Debug`).  It reads a
/// header wherever the reader does.
#[verifier::external_body]
fn read_page_sub_headers(bytes: &[u8]) -> (r: Result<(Option<DictionaryPageDetails>, Option<DataPageV2Details>), String>)
    requires
        !(thrift_page_header(bytes@) is Panics),
    ensures
        thrift_page_header(bytes@) is Read ==> r is Ok,
        r matches Ok((k, v)) ==> k == page_header_details(bytes@).dictionary_page && v
            == page_header_details(bytes@).data_page_v2,
{
    let h = PageHeader::read_from_in_protocol(&mut TCompactInputProtocol::new(&mut &*bytes)).map_err(|e| e.to_string())?;
    Ok((
        h.dictionary_page_header.as_ref().map(|k| DictionaryPageDetails { num_values: k.num_values, encoding: format!("{:?}", k.encoding), is_sorted: k.is_sorted }),
        h.data_page_header_v2.as_ref().map(|v| DataPageV2Details { num_values: v.num_values, num_nulls: v.num_nulls, num_rows: v.num_rows, encoding: format!("{:?}", v.encoding), definition_levels_byte_length: v.definition_levels_byte_length, repetition_levels_byte_length: v.repetition_levels_byte_length, is_compressed: v.is_compressed, statistics: v.statistics.as_ref().map(|s| StatisticsInfo { max_value: s.max_value.clone(), min_value: s.min_value.clone(), null_count: s.null_count, distinct_count: s.distinct_count }) }),
    ))
}

/// The fields of the page header at the start of `bytes` that the page
/// view shows.
fn read_header_details(bytes: &[u8]) -> (d: PageHeaderDetails)
    requires
        thrift_page_header(bytes@) is Read,
    ensures
        d == page_header_details(bytes@),
{
    let (page_type, crc, data_page) = match read_page_details(bytes) {
        Ok(t) => t,
        Err(_) => (String::new(), None, None),
    };
    let (dictionary_page, data_page_v2) = match read_page_sub_headers(bytes) {
        Ok(t) => t,
        Err(_) => (None, None),
    };
    PageHeaderDetails { page_type, crc, data_page, dictionary_page, data_page_v2 }
}

/// The decoded content of a page.
#[allow(inconsistent_fields)]
pub enum PageContent {
    Dictionary { values: Vec<i64> },
    Data { encoding: Encoding, values: PageValues },
    DataV2,
    DecodeError(String),
}

pub enum PageContentView {
    Dictionary(Seq<i64>),
    Data(Encoding, PageValuesView),
    DataV2,
    DecodeError(Seq<char>),
}

impl View for PageContent {
    type V = PageContentView;

    open spec fn view(&self) -> PageContentView {
        match self {
            PageContent::Dictionary { values } => PageContentView::Dictionary(values@),
            PageContent::Data { encoding, values } => PageContentView::Data(*encoding, values@),
            PageContent::DataV2 => PageContentView::DataV2,
            PageContent::DecodeError(m) => PageContentView::DecodeError(m@),
        }
    }
}

/// A page of a column chunk: its number in the chunk, its header (as its
/// JSON view, and the fields the walk reads) and its content.
pub struct PageChunk {
    pub page_number: usize,
    pub header_json: JsonValue,
    pub header_summary: PageHeaderSummary,
    pub content: PageContent,
}

pub struct PageView {
    pub page_number: nat,
    pub header: PageHeaderSummary,
    /// The JSON view of the header.
    pub header_json: Json,
    pub content: PageContentView,
}

impl View for PageChunk {
    type V = PageView;

    open spec fn view(&self) -> PageView {
        PageView {
            page_number: self.page_number as nat,
            header: self.header_summary,
            header_json: self.header_json@,
            content: self.content@,
        }
    }
}

/// The pages of a column chunk, the number of values they account for, and
/// the dictionary of the chunk, if any.
pub struct ColumnData {
    pub pages: Vec<PageChunk>,
    pub total_values: i64,
    pub page_count: usize,
    pub dictionary: Option<Vec<i64>>,
}

pub struct ColumnDataView {
    pub pages: Seq<PageView>,
    pub total_values: i64,
    pub page_count: nat,
    pub dictionary: Option<Seq<i64>>,
}

pub open spec fn pages_view(pages: Seq<PageChunk>) -> Seq<PageView> {
    pages.map_values(|p: PageChunk| p@)
}

pub open spec fn dictionary_view(d: Option<Vec<i64>>) -> Option<Seq<i64>> {
    match d {
        Some(v) => Some(v@),
        None => None,
    }
}

impl View for ColumnData {
    type V = ColumnDataView;

    open spec fn view(&self) -> ColumnDataView {
        ColumnDataView {
            pages: pages_view(self.pages@),
            total_values: self.total_values,
            page_count: self.page_count as nat,
            dictionary: dictionary_view(self.dictionary),
        }
    }
}

/// The first schema field named `name`, from index `i`.
pub open spec fn first_named(schema: Seq<SchemaNode>, name: Seq<char>, i: int) -> Option<int>
    decreases schema.len() - i,
{
    if i >= schema.len() || i < 0 {
        None
    } else if schema[i].name@ == name {
        Some(i)
    } else {
        first_named(schema, name, i + 1)
    }
}

/// The bit width of the definition levels of a column: 1 when the first
/// schema field named like the last component of the column's path is
/// optional or repeated, 0 otherwise.
pub open spec fn def_level_width(meta: ColumnMeta, schema: Seq<SchemaNode>) -> u8 {
    let path = meta.path_in_schema@;
    if path.len() == 0 {
        0
    } else {
        match first_named(schema, path.last()@, 0) {
            None => 0,
            Some(i) => match schema[i].repetition_type {
                Some(FieldRepetition::Optional) => 1,
                Some(FieldRepetition::Repeated) => 1,
                _ => 0,
            },
        }
    }
}

/// Infers the bit width of a column's definition levels from the schema.
pub fn infer_definition_level_bit_width(column_meta: &ColumnMeta, schema: &Vec<SchemaNode>) -> (w:
    u8)
    ensures
        w == def_level_width(*column_meta, schema@),
{
    let path = &column_meta.path_in_schema;
    if path.len() == 0 {
        return 0;
    }
    let name = &path[path.len() - 1];
    let mut i: usize = 0;
    while i < schema.len()
        invariant
            i <= schema.len(),
            first_named(schema@, name@, i as int) == first_named(schema@, name@, 0),
            column_meta.path_in_schema@.len() > 0,
            *name == column_meta.path_in_schema@.last(),
        decreases schema.len() - i,
    {
        if schema[i].name == *name {
            return match schema[i].repetition_type {
                Some(FieldRepetition::Optional) => 1,
                Some(FieldRepetition::Repeated) => 1,
                Some(FieldRepetition::Required) => 0,
                None => 0,
            };
        }
        i = i + 1;
    }
    0
}

/// The message of an error, as `to_string` gives it, for the faults of the
/// page decoders.
pub open spec fn fault_message(f: Fault) -> Seq<char> {
    match f {
        Fault::Eof => "I/O error: "@ + eof_message(),
        Fault::Decode(m) => "Decoding error: "@ + m,
    }
}

/// Decimal numbers separated by `", "`.
pub open spec fn joined_decimals(v: Seq<u32>) -> Seq<char>
    decreases v.len(),
{
    if v.len() == 0 {
        Seq::empty()
    } else if v.len() == 1 {
        decimal(v[0] as nat)
    } else {
        joined_decimals(v.drop_last()) + ", "@ + decimal(v.last() as nat)
    }
}

/// The message for dictionary-page values that are not plain i64 values,
/// with the values as `Debug` prints them.
pub open spec fn payload_message(v: PageValuesView) -> Seq<char> {
    match v {
        PageValuesView::DictionaryIndices(ix) => "Unexpected dictionary payload: DictionaryIndices(["@
            + joined_decimals(ix) + "])"@,
        _ => Seq::empty(),
    }
}

/// What a page contributes once its data is decompressed.
pub enum PageStep {
    Step { content: PageContentView, added: int, dictionary: Option<Seq<i64>> },
    Fails(Fault),
    Panics,
}

/// The number of values held.
pub open spec fn values_len(v: PageValuesView) -> nat {
    match v {
        PageValuesView::Int64(s) => s.len(),
        PageValuesView::Dictionary(s) => s.len(),
        PageValuesView::DictionaryIndices(s) => s.len(),
    }
}

/// A dictionary page's values become the dictionary (plain i64 values) or
/// an error content; a data page's definition levels are skipped (when the
/// level width is not 0) and its values decoded, counting the values
/// decoded, or the page's value count when they fail to decode; a version 2
/// data page counts its value count; other pages are an error content.
pub open spec fn page_step(
    d: Seq<u8>,
    meta: ColumnMeta,
    bw: u8,
    h: PageHeaderSummary,
    dict: Option<Seq<i64>>,
) -> PageStep {
    match h.dictionary_page {
        Some((nv, en)) => match Encoding::spec_from_thrift(en) {
            None => PageStep::Panics,
            Some(enc) => match page_decode(d, meta.physical_type, enc, nv) {
                Decoded::Done(PageValuesView::Int64(v)) => PageStep::Step {
                    content: PageContentView::Dictionary(v),
                    added: 0,
                    dictionary: Some(v),
                },
                Decoded::Done(other) => PageStep::Step {
                    content: PageContentView::DecodeError(payload_message(other)),
                    added: 0,
                    dictionary: dict,
                },
                Decoded::Fails(f) => PageStep::Step {
                    content: PageContentView::DecodeError(fault_message(f)),
                    added: 0,
                    dictionary: dict,
                },
                Decoded::Panics => PageStep::Panics,
            },
        },
        None => match h.data_page {
            Some((nv, en)) => match Encoding::spec_from_thrift(en) {
                None => PageStep::Panics,
                Some(enc) => {
                    let levels = if bw > 0 {
                        hybrid_decode(d, bw, (nv as usize) as nat)
                    } else {
                        Decoded::Done((Seq::empty(), 0))
                    };
                    match levels {
                        Decoded::Done((_, used)) => match page_decode(
                            d.subrange(used, d.len() as int),
                            meta.physical_type,
                            enc,
                            nv,
                        ) {
                            Decoded::Done(vals) => PageStep::Step {
                                content: PageContentView::Data(enc, vals),
                                added: (values_len(vals) as i64) as int,
                                dictionary: dict,
                            },
                            Decoded::Fails(f) => PageStep::Step {
                                content: PageContentView::DecodeError(fault_message(f)),
                                added: nv as int,
                                dictionary: dict,
                            },
                            Decoded::Panics => PageStep::Panics,
                        },
                        Decoded::Fails(f) => PageStep::Fails(f),
                        Decoded::Panics => PageStep::Panics,
                    }
                },
            },
            None => match h.data_page_v2_num_values {
                Some(nv) => PageStep::Step {
                    content: PageContentView::DataV2,
                    added: nv as int,
                    dictionary: dict,
                },
                None => PageStep::Step {
                    content: PageContentView::DecodeError("Unhandled page type"@),
                    added: 0,
                    dictionary: dict,
                },
            },
        },
    }
}

/// Why reading a column chunk's pages fails.
pub enum ColumnFault {
    MissingMeta,
    /// The offset of the chunk's first page is negative: the seek to it
    /// fails.
    BadSeek,
    /// A page header could not be decoded; the decoder's message.
    Thrift(Seq<char>),
    /// The page data runs past the end of the file.
    Eof,
    Decompress(Decompressed),
    /// The definition levels of a data page failed to decode.
    Levels(Fault),
}

pub enum Walk {
    Done(ColumnDataView),
    Fails(ColumnFault),
    /// A size, count or shift overflows.
    Panics,
    /// The page header decoder panics.
    HeaderPanics,
}

/// Walking the pages from `pos`, `values_read` values being accounted for:
/// while fewer values than the column holds are read, decode the page
/// header at `pos`, take its compressed data, decompress it, and take the
/// page's step.
pub open spec fn walk_from(
    data: Seq<u8>,
    meta: ColumnMeta,
    bw: u8,
    pos: int,
    values_read: int,
    page_number: nat,
    dict: Option<Seq<i64>>,
    pages: Seq<PageView>,
) -> Walk
    decreases data.len() - pos,
{
    if values_read >= meta.num_values {
        Walk::Done(
            ColumnDataView {
                pages,
                total_values: values_read as i64,
                page_count: page_number,
                dictionary: dict,
            },
        )
    } else if !(0 <= pos <= data.len()) {
        Walk::Panics
    } else {
        match thrift_page_header(data.subrange(pos, data.len() as int)) {
            HeaderRead::Panics => Walk::HeaderPanics,
            HeaderRead::Unreadable(m) => Walk::Fails(ColumnFault::Thrift(m)),
            HeaderRead::Read(h, n) => {
                let p1 = pos + n;
                if h.compressed_page_size < 0 {
                    Walk::Panics
                } else if p1 + h.compressed_page_size > data.len() {
                    Walk::Fails(ColumnFault::Eof)
                } else {
                    let p2 = p1 + h.compressed_page_size;
                    match decompress_spec(
                        data.subrange(p1, p2),
                        meta.codec,
                        h.uncompressed_page_size,
                    ) {
                        Decompressed::Bytes(d) => match page_step(d, meta, bw, h, dict) {
                            PageStep::Step { content, added, dictionary } => {
                                if values_read + added > i64::MAX || values_read + added
                                    < i64::MIN {
                                    Walk::Panics
                                } else if pos < p2 {
                                    walk_from(
                                        data,
                                        meta,
                                        bw,
                                        p2,
                                        values_read + added,
                                        page_number + 1,
                                        dictionary,
                                        pages.push(
                                            PageView {
                                                page_number,
                                                header: h,
                                                header_json: page_header_json(
 h,
 page_header_details(data.subrange(pos, data.len() as int)),
 page_number,
 ),
                                                content,
                                            },
                                        ),
                                    )
                                } else {
                                    Walk::Panics
                                }
                            },
                            PageStep::Fails(f) => Walk::Fails(ColumnFault::Levels(f)),
                            PageStep::Panics => Walk::Panics,
                        },
                        other => Walk::Fails(ColumnFault::Decompress(other)),
                    }
                }
            },
        }
    }
}

/// Where the pages of a column chunk start: its dictionary page if it has
/// one, else its first data page (an offset past the end of the file reads
/// nothing).
/// The offset of a column chunk's first page: its dictionary page, or else
/// its first data page.
pub open spec fn first_page_offset(meta: ColumnMeta) -> i64 {
    match meta.dictionary_page_offset {
        Some(o) => o,
        None => meta.data_page_offset,
    }
}

/// Where the walk over a column chunk's pages starts: the offset of its
/// first page, or the end of the file where that lies past it (the first
/// header read then fails).
pub open spec fn pages_start(data: Seq<u8>, meta: ColumnMeta) -> int {
    let start = first_page_offset(meta) as int;
    if start <= data.len() {
        start
    } else {
        data.len() as int
    }
}

/// Reading the pages of a column chunk from the bytes of the file.
pub open spec fn column_read(data: Seq<u8>, schema: Seq<SchemaNode>, chunk: ColumnChunkSummary) -> Walk {
    match chunk.meta_data {
        None => Walk::Fails(ColumnFault::MissingMeta),
        Some(meta) => if first_page_offset(meta) < 0 {
            Walk::Fails(ColumnFault::BadSeek)
        } else {
            walk_from(
                data,
                meta,
                def_level_width(meta, schema),
                pages_start(data, meta),
                0,
                0,
                None,
                Seq::empty(),
            )
        },
    }
}

/// Whether `e` is the error by which reading column `column_idx` reports
/// the fault `f`.
pub open spec fn column_reports(e: ParquetDemoError, f: ColumnFault, column_idx: usize) -> bool {
    match f {
        ColumnFault::MissingMeta => e matches ParquetDemoError::MissingColumnMeta { column_idx: c }
            && c == column_idx,
        ColumnFault::BadSeek => is_bad_seek(e),
        ColumnFault::Thrift(m) => e matches ParquetDemoError::Thrift(x) && x@ == m,
        ColumnFault::Eof => is_eof(e),
        ColumnFault::Decompress(d) => match d {
            Decompressed::Unimplemented(m) => e matches ParquetDemoError::Decode(x) && x@ == m,
            Decompressed::Invalid(m) => e matches ParquetDemoError::Io(x) && x@ == m,
            Decompressed::SizeMismatch(m) => e matches ParquetDemoError::Decode(x) && x@ == m,
            Decompressed::Bytes(_) => false,
        },
        ColumnFault::Levels(g) => reports(e, g),
    }
}

fn copy_values(v: &Vec<i64>) -> (r: Vec<i64>)
    ensures
        r@ == v@,
{
    let mut r: Vec<i64> = Vec::new();
    let mut i: usize = 0;
    while i < v.len()
        invariant
            i <= v.len(),
            r@ == v@.take(i as int),
        decreases v.len() - i,
    {
        r.push(v[i]);
        assert(r@ =~= v@.take(i + 1));
        i = i + 1;
    }
    assert(v@.take(v.len() as int) =~= v@);
    r
}

/// The message for dictionary-page values that are not plain i64 values.
fn unexpected_payload(v: &PageValues) -> (m: String)
    ensures
        m@ == payload_message(v@),
{
    let mut m = String::new();
    match v {
        PageValues::DictionaryIndices(ix) => {
            push_str(&mut m, "Unexpected dictionary payload: DictionaryIndices([");
            let ghost prefix = m@;
            let mut i: usize = 0;
            while i < ix.len()
                invariant
                    i <= ix.len(),
                    m@ == prefix + joined_decimals(ix@.take(i as int)),
                decreases ix.len() - i,
            {
                let ghost before = m@;
                if i > 0 {
                    push_str(&mut m, ", ");
                }
                push_decimal(&mut m, ix[i] as u64);
                assert(ix@.take(i + 1).drop_last() =~= ix@.take(i as int));
                if i == 0 {
                    assert(ix@.take(1).len() == 1);
                    assert(joined_decimals(ix@.take(1)) == decimal(ix@[0] as nat));
                }
                assert(m@ =~= prefix + joined_decimals(ix@.take(i + 1)));
                i = i + 1;
            }
            assert(ix@.take(ix.len() as int) =~= ix@);
            push_str(&mut m, "])");
        },
        _ => {},
    }
    m
}

/// The page walk from `start`; `None` where it would overflow.
fn walk_column(file: &[u8], meta: &ColumnMeta, bw: u8, start: usize, column_idx: usize) -> (r: Option<
    Result<ColumnData, ParquetDemoError>,
>)
    requires
        start <= file.len(),
        !(walk_from(file@, *meta, bw, start as int, 0, 0, None, Seq::empty()) is HeaderPanics),
    ensures
        walk_from(file@, *meta, bw, start as int, 0, 0, None, Seq::empty()) is Panics <==> r is None,
        walk_from(file@, *meta, bw, start as int, 0, 0, None, Seq::empty()) matches Walk::Done(v)
            ==> r matches Some(Ok(c)) && c@ == v,
        walk_from(file@, *meta, bw, start as int, 0, 0, None, Seq::empty()) matches Walk::Fails(f)
            ==> r matches Some(Err(e)) && column_reports(e, f, column_idx),
{
    let ghost whole = walk_from(file@, *meta, bw, start as int, 0, 0, None, Seq::empty());
    let total_values = meta.num_values;
    let mut values_read: i64 = 0;
    let mut dictionary: Option<Vec<i64>> = None;
    let mut pages: Vec<PageChunk> = Vec::new();
    let mut page_number: usize = 0;
    let mut pos: usize = start;
    assert(pages_view(pages@) =~= Seq::<PageView>::empty());
    while values_read < total_values
        invariant
            pos <= file.len(),
            page_number <= pos,
            walk_from(
                file@,
                *meta,
                bw,
                pos as int,
                values_read as int,
                page_number as nat,
                dictionary_view(dictionary),
                pages_view(pages@),
            ) == whole,
            whole == walk_from(file@, *meta, bw, start as int, 0, 0, None, Seq::empty()),
            !(whole is HeaderPanics),
            total_values == meta.num_values,
        ensures
            whole == Walk::Done(
                ColumnDataView {
                    pages: pages_view(pages@),
                    total_values: values_read,
                    page_count: page_number as nat,
                    dictionary: dictionary_view(dictionary),
                },
            ),
        decreases file.len() - pos,
    {
        let ghost gpos = pos as int;
        let ghost dict0 = dictionary_view(dictionary);
        let ghost pages0 = pages_view(pages@);
        let ghost read0 = values_read as int;
        assert(!(thrift_page_header(file@.subrange(gpos, file@.len() as int)) is Panics));
        let header_bytes = &file[pos..file.len()];
        let (summary, consumed) = match read_page_header(header_bytes) {
            Ok(t) => t,
            Err(m) => {
                return Some(Err(ParquetDemoError::Thrift(m)));
            },
        };
        let details = read_header_details(header_bytes);
        let header_json = page_header_to_json(&summary, &details, page_number);
        let p1 = pos + consumed;
        if summary.compressed_page_size < 0 {
            return None;
        }
        let size = summary.compressed_page_size as usize;
        if size > file.len() - p1 {
            return Some(Err(unexpected_eof()));
        }
        let decompressed = match decompress_page(
            &file[p1..p1 + size],
            meta.codec,
            summary.uncompressed_page_size,
        ) {
            Ok(d) => d,
            Err(e) => {
                return Some(Err(e));
            },
        };
        pos = p1 + size;
        let ghost step = page_step(decompressed@, *meta, bw, summary, dict0);
        let (content, added): (PageContent, i64) = if let Some((nv, en)) = summary.dictionary_page {
            let encoding = match Encoding::from_thrift(en) {
                Some(e) => e,
                None => {
                    return None;
                },
            };
            match decode_page_values(decompressed.as_slice(), meta.physical_type, encoding, nv) {
                None => {
                    return None;
                },
                Some(Ok(PageValues::Int64(values))) => {
                    dictionary = Some(copy_values(&values));
                    (PageContent::Dictionary { values }, 0)
                },
                Some(Ok(other)) => (PageContent::DecodeError(unexpected_payload(&other)), 0),
                Some(Err(e)) => (PageContent::DecodeError(e.message()), 0),
            }
        } else if let Some((nv, en)) = summary.data_page {
            let encoding = match Encoding::from_thrift(en) {
                Some(e) => e,
                None => {
                    return None;
                },
            };
            let num_values = nv as usize;
            let used = if bw > 0 {
                proof {
                    lemma_hybrid_bounds(decompressed@, 0, bw, num_values as nat, Seq::empty());
                }
                match decode_hybrid_levels(decompressed.as_slice(), bw, num_values) {
                    None => {
                        return None;
                    },
                    Some(Ok((_, levels_used))) => levels_used,
                    Some(Err(e)) => {
                        return Some(Err(e));
                    },
                }
            } else {
                0
            };
            let values_slice = &decompressed[used..decompressed.len()];
            match decode_page_values(values_slice, meta.physical_type, encoding, nv) {
                None => {
                    return None;
                },
                Some(Ok(page_values)) => {
                    let n = page_values.len() as i64;
                    (PageContent::Data { encoding, values: page_values }, n)
                },
                Some(Err(e)) => (PageContent::DecodeError(e.message()), nv as i64),
            }
        } else if let Some(nv) = summary.data_page_v2_num_values {
            (PageContent::DataV2, nv as i64)
        } else {
            (PageContent::DecodeError("Unhandled page type".to_string()), 0)
        };
        assert(step == (PageStep::Step {
            content: content@,
            added: added as int,
            dictionary: dictionary_view(dictionary),
        }));
        values_read = match values_read.checked_add(added) {
            Some(v) => v,
            None => {
                return None;
            },
        };
        let chunk = PageChunk { page_number, header_json, header_summary: summary, content };
        let ghost view = chunk@;
        pages.push(chunk);
        assert(pages_view(pages@) =~= pages0.push(view));
        page_number = page_number + 1;
    }
    Some(
        Ok(ColumnData { pages, total_values: values_read, page_count: page_number, dictionary }),
    )
}

/// Reading a column chunk's pages; `None` where the reading would overflow.
fn column_walk(
    file: &[u8],
    file_metadata: &FileSummary,
    column_chunk: &ColumnChunkSummary,
    column_idx: usize,
) -> (r: Option<Result<ColumnData, ParquetDemoError>>)
    requires
        !(column_read(file@, file_metadata.schema@, *column_chunk) is HeaderPanics),
    ensures
        column_read(file@, file_metadata.schema@, *column_chunk) is Panics <==> r is None,
        column_read(file@, file_metadata.schema@, *column_chunk) matches Walk::Done(v) ==> r matches Some(
            Ok(c),
        ) && c@ == v,
        column_read(file@, file_metadata.schema@, *column_chunk) matches Walk::Fails(f) ==> r matches Some(
            Err(e),
        ) && column_reports(e, f, column_idx),
{
    let column_meta = match &column_chunk.meta_data {
        Some(m) => m,
        None => {
            return Some(Err(ParquetDemoError::MissingColumnMeta { column_idx }));
        },
    };
    let start_offset = match column_meta.dictionary_page_offset {
        Some(o) => o,
        None => column_meta.data_page_offset,
    };
    if start_offset < 0 {
        return Some(Err(ParquetDemoError::Io("invalid seek to a negative or overflowing position".to_string())));
    }
    let def_bit_width = infer_definition_level_bit_width(column_meta, &file_metadata.schema);
    let offset = start_offset as u64;
    let start = if offset <= file.len() as u64 {
        offset as usize
    } else {
        file.len()
    };
    walk_column(file, column_meta, def_bit_width, start, column_idx)
}

/// Reads the pages of a column chunk from the bytes of the file: from the
/// chunk's dictionary page (or first data page), pages are decoded until
/// they account for the chunk's value count.
pub fn read_column_pages(
    file: &[u8],
    file_metadata: &FileSummary,
    column_chunk: &ColumnChunkSummary,
    column_idx: usize,
) -> (r: Result<ColumnData, ParquetDemoError>)
    requires
        !(column_read(file@, file_metadata.schema@, *column_chunk) is Panics),
        !(column_read(file@, file_metadata.schema@, *column_chunk) is HeaderPanics),
    ensures
        column_read(file@, file_metadata.schema@, *column_chunk) matches Walk::Done(v) ==> r matches Ok(
            c,
        ) && c@ == v,
        column_read(file@, file_metadata.schema@, *column_chunk) matches Walk::Fails(f) ==> r matches Err(
            e,
        ) && column_reports(e, f, column_idx),
{
    match column_walk(file, file_metadata, column_chunk, column_idx) {
        Some(r) => r,
        None => Err(unexpected_eof()),
    }
}

/// Reads the pages of a column chunk as `read_column_pages` does, or gives
/// `None` where that reading would overflow a size, a count or a shift
/// (a negative page size, an over-long varint, a value count past i64).
/// Page headers on which the header decoder panics are left out.
pub fn try_read_column_pages(
    file: &[u8],
    file_metadata: &FileSummary,
    column_chunk: &ColumnChunkSummary,
    column_idx: usize,
) -> (r: Option<Result<ColumnData, ParquetDemoError>>)
    requires
        !(column_read(file@, file_metadata.schema@, *column_chunk) is HeaderPanics),
    ensures
        column_read(file@, file_metadata.schema@, *column_chunk) is Panics <==> r is None,
        column_read(file@, file_metadata.schema@, *column_chunk) matches Walk::Done(v) ==> r matches Some(
            Ok(c),
        ) && c@ == v,
        column_read(file@, file_metadata.schema@, *column_chunk) matches Walk::Fails(f) ==> r matches Some(
            Err(e),
        ) && column_reports(e, f, column_idx),
{
    column_walk(file, file_metadata, column_chunk, column_idx)
}

proof fn lemma_walk_shape(
    data: Seq<u8>,
    meta: ColumnMeta,
    bw: u8,
    pos: int,
    values_read: int,
    page_number: nat,
    dict: Option<Seq<i64>>,
    pages: Seq<PageView>,
)
    requires
        pages.len() == page_number,
        forall|i: int| 0 <= i < pages.len() ==> pages[i].page_number == i,
        i64::MIN <= values_read <= i64::MAX,
    ensures
        walk_from(data, meta, bw, pos, values_read, page_number, dict, pages) matches Walk::Done(v)
            ==> v.page_count == v.pages.len() && (forall|i: int|
            0 <= i < v.pages.len() ==> v.pages[i].page_number == i) && v.total_values
            >= meta.num_values,
    decreases data.len() - pos,
{
    if values_read < meta.num_values && 0 <= pos <= data.len() {
        match thrift_page_header(data.subrange(pos, data.len() as int)) {
            HeaderRead::Read(h, n) => {
                let p1 = pos + n;
                if h.compressed_page_size >= 0 && p1 + h.compressed_page_size <= data.len() {
                    let p2 = p1 + h.compressed_page_size;
                    match decompress_spec(
                        data.subrange(p1, p2),
                        meta.codec,
                        h.uncompressed_page_size,
                    ) {
                        Decompressed::Bytes(d) => match page_step(d, meta, bw, h, dict) {
                            PageStep::Step { content, added, dictionary } => {
                                if i64::MIN <= values_read + added <= i64::MAX && pos < p2 {
                                    let next = pages.push(
                                        PageView {
                                            page_number,
                                            header: h,
                                            header_json: page_header_json(
 h,
 page_header_details(data.subrange(pos, data.len() as int)),
 page_number,
 ),
                                            content,
                                        },
                                    );
                                    assert forall|i: int| 0 <= i < next.len() implies next[i].page_number
                                        == i by {
                                        if i < pages.len() {
                                            assert(next[i] == pages[i]);
                                        }
                                    }
                                    lemma_walk_shape(
                                        data,
                                        meta,
                                        bw,
                                        p2,
                                        values_read + added,
                                        page_number + 1,
                                        dictionary,
                                        next,
                                    );
                                }
                            },
                            _ => {},
                        },
                        _ => {},
                    }
                }
            },
            _ => {},
        }
    }
}

/// A column read that completes accounts for at least the column's value
/// count, and numbers its pages 0, 1, 2, ... in the order they were read.
pub proof fn lemma_column_read_shape(data: Seq<u8>, schema: Seq<SchemaNode>, chunk: ColumnChunkSummary)
    ensures
        column_read(data, schema, chunk) matches Walk::Done(v) ==> chunk.meta_data matches Some(m)
            && v.total_values >= m.num_values && v.page_count == v.pages.len() && (forall|i: int|
            0 <= i < v.pages.len() ==> v.pages[i].page_number == i),
{
    if let Some(meta) = chunk.meta_data {
        lemma_walk_shape(
            data,
            meta,
            def_level_width(meta, schema),
            pages_start(data, meta),
            0,
            0,
            None,
            Seq::empty(),
        );
    }
}

/// A data page accounts for the values it holds: as many as were decoded
/// where its values decode, and its header's value count where they fail
/// to decode.  A dictionary page accounts for none.
pub proof fn lemma_page_step_counts(
    d: Seq<u8>,
    meta: ColumnMeta,
    bw: u8,
    h: PageHeaderSummary,
    dict: Option<Seq<i64>>,
)
    ensures
        match (h.dictionary_page, h.data_page, page_step(d, meta, bw, h, dict)) {
            (Some(_), _, PageStep::Step { added, .. }) => added == 0,
            (None, Some((nv, _)), PageStep::Step { content, added, .. }) => match content {
                PageContentView::DecodeError(_) => added == nv,
                PageContentView::Data(_, vals) => values_len(vals) <= i64::MAX ==> added
                    == values_len(vals),
                _ => false,
            },
            _ => true,
        },
{
}

} // verus!
