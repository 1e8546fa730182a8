//! The JSON views of a Parquet file's metadata (the file metadata, a row
//! group, a page header), and the Arrow schema that Arrow writers keep in a
//! Parquet file's key-value metadata: an IPC schema message,
//! base64-encoded.

use vstd::prelude::*;
use base64::Engine;
use crate::errors::{ParquetDemoError, push_str};
use crate::json::{
    add_item, add_member, array, items_json, json_get, json_item, keys_distinct, lemma_member_absent,
    lemma_member_append, lemma_member_at, lemma_members_distinct, members_json, no_members, object, opt_bool, opt_bool_value, opt_hex,
    opt_hex_value, opt_i32, opt_i32_value, opt_i64, opt_i64_value, opt_num, opt_str, opt_text,
    opt_text_value, text, text_array, text_array_value, text_of, Json, JsonValue,
};
use crate::pages::{
    DataPageDetails, DataPageV2Details, DictionaryPageDetails, PageHeaderDetails, PageHeaderSummary,
};
use crate::summary::{
    ColumnChunkFacts, ColumnMeta, ColumnMetaFacts, FileSummary, SchemaFacts, StatisticsInfo,
};

verus! {

/// Key-value pairs as a map; a later pair wins over an earlier one.
pub open spec fn pairs_map(pairs: Seq<(String, String)>) -> Map<Seq<char>, Seq<char>>
    decreases pairs.len(),
{
    if pairs.len() == 0 {
        Map::empty()
    } else {
        pairs_map(pairs.drop_last()).insert(pairs.last().0@, pairs.last().1@)
    }
}

/// A field of an Arrow schema: its name, its data type as Arrow's `Debug`
/// renders it, whether it is nullable, and its metadata pairs (in no
/// particular order).
#[derive(Debug, Clone)]
pub struct ArrowFieldInfo {
    pub name: String,
    pub data_type: String,
    pub nullable: bool,
    pub metadata: Vec<(String, String)>,
}

pub struct ArrowFieldView {
    pub name: Seq<char>,
    pub data_type: Seq<char>,
    pub nullable: bool,
    pub metadata: Map<Seq<char>, Seq<char>>,
}

impl View for ArrowFieldInfo {
    type V = ArrowFieldView;

    open spec fn view(&self) -> ArrowFieldView {
        ArrowFieldView {
            name: self.name@,
            data_type: self.data_type@,
            nullable: self.nullable,
            metadata: pairs_map(self.metadata@),
        }
    }
}

/// An Arrow schema: its fields in order, and its metadata pairs.
#[derive(Debug, Clone)]
pub struct ArrowSchemaInfo {
    pub fields: Vec<ArrowFieldInfo>,
    pub metadata: Vec<(String, String)>,
}

pub struct ArrowSchemaView {
    pub fields: Seq<ArrowFieldView>,
    pub metadata: Map<Seq<char>, Seq<char>>,
}

impl View for ArrowSchemaInfo {
    type V = ArrowSchemaView;

    open spec fn view(&self) -> ArrowSchemaView {
        ArrowSchemaView {
            fields: self.fields@.map_values(|f: ArrowFieldInfo| f@),
            metadata: pairs_map(self.metadata@),
        }
    }
}

/// What reading bytes as an Arrow IPC message holding a schema gives.
#[derive(Debug, Clone)]
pub enum IpcSchemaRead {
    /// The bytes are no IPC message; the flatbuffer verifier's message.
    Unreadable(String),
    /// The message holds no schema header.
    NoSchema,
    /// The schema header does not describe a valid Arrow schema.
    Invalid,
    Schema(ArrowSchemaInfo),
}

pub enum IpcSchemaReadView {
    Unreadable(Seq<char>),
    NoSchema,
    Invalid,
    Schema(ArrowSchemaView),
}

impl View for IpcSchemaRead {
    type V = IpcSchemaReadView;

    open spec fn view(&self) -> IpcSchemaReadView {
        match self {
            IpcSchemaRead::Unreadable(m) => IpcSchemaReadView::Unreadable(m@),
            IpcSchemaRead::NoSchema => IpcSchemaReadView::NoSchema,
            IpcSchemaRead::Invalid => IpcSchemaReadView::Invalid,
            IpcSchemaRead::Schema(s) => IpcSchemaReadView::Schema(s@),
        }
    }
}

/// What the standard base64 engine decodes a text to: the bytes, or the
/// message of its error.
pub uninterp spec fn base64_standard_decoded(text: Seq<char>) -> Result<Seq<u8>, Seq<char>>;

/// `base64::prelude::BASE64_STANDARD.decode`: decodes padded base64 of the
/// standard alphabet.  The result, and its error's message, are a function
/// of the text alone.
#[verifier::external_body]
fn base64_standard_decode(text: &str) -> (r: Result<Vec<u8>, String>)
    ensures
        match r {
            Ok(v) => base64_standard_decoded(text@) == Ok::<Seq<u8>, Seq<char>>(v@),
            Err(m) => base64_standard_decoded(text@) == Err::<Seq<u8>, Seq<char>>(m@),
        },
{
    base64::prelude::BASE64_STANDARD.decode(text).map_err(|e| e.to_string())
}

/// What arrow-ipc reads from bytes taken as a schema message.
pub uninterp spec fn ipc_schema_read(data: Seq<u8>) -> IpcSchemaReadView;

/// arrow-ipc's reading of a schema message: `root_as_message` (a verified
/// flatbuffer read), the message's `header_as_schema`, and
/// `convert::try_fb_to_schema` (`fb_to_schema` panics exactly where it
/// fails), with the schema copied out as plain values.  The result is a
/// function of the bytes alone.
#[verifier::external_body]
fn read_ipc_schema(data: &[u8]) -> (r: IpcSchemaRead)
    ensures
        r@ == ipc_schema_read(data@),
{
    let message = match arrow_ipc::root_as_message(data) {
        Ok(m) => m,
        Err(e) => return IpcSchemaRead::Unreadable(e.to_string()),
    };
    let Some(header) = message.header_as_schema() else { return IpcSchemaRead::NoSchema };
    let Ok(schema) = arrow_ipc::convert::try_fb_to_schema(header) else { return IpcSchemaRead::Invalid };
    let fields = schema.fields().iter().map(|f| ArrowFieldInfo {
        name: f.name().clone(),
        data_type: format!("{:?}", f.data_type()),
        nullable: f.is_nullable(),
        metadata: f.metadata().clone().into_iter().collect(),
    }).collect();
    IpcSchemaRead::Schema(ArrowSchemaInfo { fields, metadata: schema.metadata().clone().into_iter().collect() })
}

/// The IPC message within decoded bytes: bytes that start with the
/// continuation marker (0xFFFFFFFF, little-endian) and hold at least 8 bytes
/// lose the marker and the 4-byte length after it.
pub open spec fn ipc_message_body(decoded: Seq<u8>) -> Seq<u8> {
    if decoded.len() >= 8 && decoded[0] + decoded[1] * 0x100 + decoded[2] * 0x1_0000 + decoded[3]
        * 0x100_0000 == 0xFFFF_FFFF {
        decoded.skip(8)
    } else {
        decoded
    }
}

/// Drops the continuation marker and length in front of an IPC message.
pub fn strip_ipc_continuation(decoded: &[u8]) -> (body: &[u8])
    ensures
        body@ == ipc_message_body(decoded@),
{
    if decoded.len() >= 8 && decoded[0] == 0xFF && decoded[1] == 0xFF && decoded[2] == 0xFF
        && decoded[3] == 0xFF {
        vstd::slice::slice_subrange(decoded, 8, decoded.len())
    } else {
        decoded
    }
}

/// The outcome of decoding an Arrow schema: the schema, an error message, or
/// a panic of the schema conversion.
pub enum SchemaDecode {
    Decoded(ArrowSchemaView),
    Fails(Seq<char>),
    Panics,
}

/// What becomes of a schema message read.
pub open spec fn schema_from_read(read: IpcSchemaReadView) -> SchemaDecode {
    match read {
        IpcSchemaReadView::Unreadable(m) => SchemaDecode::Fails("Arrow IPC parse failed: "@ + m),
        IpcSchemaReadView::NoSchema => SchemaDecode::Fails("IPC message lacks schema"@),
        IpcSchemaReadView::Invalid => SchemaDecode::Panics,
        IpcSchemaReadView::Schema(s) => SchemaDecode::Decoded(s),
    }
}

/// Decoding a base64 text as an Arrow schema: base64, then the IPC message
/// without its framing, then the schema it holds.
pub open spec fn arrow_schema_decode(text: Seq<char>) -> SchemaDecode {
    match base64_standard_decoded(text) {
        Err(m) => SchemaDecode::Fails("Base64 decode failed: "@ + m),
        Ok(bytes) => schema_from_read(ipc_schema_read(ipc_message_body(bytes))),
    }
}

/// Whether `r` is what a schema decoding outcome calls for.
pub open spec fn decode_gives(r: Result<ArrowSchemaInfo, ParquetDemoError>, d: SchemaDecode) -> bool {
    match d {
        SchemaDecode::Decoded(s) => r matches Ok(info) && info@ == s,
        SchemaDecode::Fails(m) => r matches Err(ParquetDemoError::ArrowSchema(x)) && x@ == m,
        SchemaDecode::Panics => false,
    }
}

/// An error that carries `prefix` followed by `m`.
fn arrow_schema_error(prefix: &str, m: &str) -> (e: ParquetDemoError)
    ensures
        e matches ParquetDemoError::ArrowSchema(x) && x@ == prefix@ + m@,
{
    let mut s = String::new();
    push_str(&mut s, prefix);
    push_str(&mut s, m);
    ParquetDemoError::ArrowSchema(s)
}

/// Turns a schema message read into the decoded schema or its error.
pub fn arrow_schema_from_read(read: IpcSchemaRead) -> (r: Result<ArrowSchemaInfo, ParquetDemoError>)
    requires
        !(read@ is Invalid),
    ensures
        decode_gives(r, schema_from_read(read@)),
{
    match read {
        IpcSchemaRead::Unreadable(m) => {
            Err(arrow_schema_error("Arrow IPC parse failed: ", m.as_str()))
        },
        IpcSchemaRead::NoSchema => Err(
            ParquetDemoError::ArrowSchema("IPC message lacks schema".to_string()),
        ),
        IpcSchemaRead::Schema(s) => Ok(s),
        IpcSchemaRead::Invalid => Err(ParquetDemoError::Message(String::new())),
    }
}

/// Decodes the base64 Arrow schema of a Parquet file's metadata.  Where the
/// schema message converts to no valid Arrow schema, the conversion panics:
/// such texts are left out.
pub fn decode_arrow_schema(base64_str: &str) -> (r: Result<ArrowSchemaInfo, ParquetDemoError>)
    requires
        !(arrow_schema_decode(base64_str@) is Panics),
    ensures
        decode_gives(r, arrow_schema_decode(base64_str@)),
{
    let decoded = match base64_standard_decode(base64_str) {
        Ok(d) => d,
        Err(m) => {
            return Err(arrow_schema_error("Base64 decode failed: ", m.as_str()));
        },
    };
    let body = strip_ipc_continuation(decoded.as_slice());
    arrow_schema_from_read(read_ipc_schema(body))
}

/// Decodes the base64 Arrow schema as `decode_arrow_schema` does, or gives
/// `None` where the schema conversion would panic.
pub fn try_decode_arrow_schema(base64_str: &str) -> (r: Option<Result<ArrowSchemaInfo, ParquetDemoError>>)
    ensures
        arrow_schema_decode(base64_str@) is Panics <==> r is None,
        r matches Some(x) ==> decode_gives(x, arrow_schema_decode(base64_str@)),
{
    if let Ok(decoded) = base64_standard_decode(base64_str) {
        let body = strip_ipc_continuation(decoded.as_slice());
        if let IpcSchemaRead::Invalid = read_ipc_schema(body) {
            return None;
        }
    }
    Some(decode_arrow_schema(base64_str))
}

/// A schema element's JSON view.
pub open spec fn schema_element_json(e: SchemaFacts) -> Json {
    Json::Object(
        seq![
            ("type"@, Json::Text(e.physical_type@)),
            ("type_length"@, opt_num(opt_i32(e.type_length))),
            ("repetition_type"@, Json::Text(e.repetition_type@)),
            ("name"@, Json::Text(e.name@)),
            ("num_children"@, opt_num(opt_i32(e.num_children))),
            ("converted_type"@, Json::Text(e.converted_type@)),
            ("scale"@, opt_num(opt_i32(e.scale))),
            ("precision"@, opt_num(opt_i32(e.precision))),
            ("field_id"@, opt_num(opt_i32(e.field_id))),
            ("logical_type"@, Json::Text(e.logical_type@)),
        ],
    )
}

/// A key/value pair's JSON view.
pub open spec fn key_value_json(kv: (String, Option<String>)) -> Json {
    Json::Object(seq![("key"@, Json::Text(kv.0@)), ("value"@, opt_text(opt_str(kv.1)))])
}

/// The JSON view of the key/value pairs, or null.
pub open spec fn key_values_json(kv: Option<Vec<(String, Option<String>)>>) -> Json {
    match kv {
        Some(v) => Json::Array(Seq::new(v@.len(), |i: int| key_value_json(v@[i]))),
        None => Json::Null,
    }
}

/// The JSON view of the file metadata: version, row count, creator, the
/// number of row groups, the schema elements, the key/value pairs, the
/// column orders, the encryption algorithm and the footer signing key (in
/// hexadecimal).
pub open spec fn file_metadata_json(s: FileSummary) -> Json {
    Json::Object(
        seq![
            ("version"@, Json::Num(s.facts.version as int)),
            ("num_rows"@, Json::Num(s.facts.num_rows as int)),
            ("created_by"@, opt_text(opt_str(s.facts.created_by))),
            ("num_row_groups"@, Json::Num(s.row_groups@.len() as int)),
            (
                "schema"@,
                Json::Array(
                    Seq::new(s.schema_facts@.len(), |i: int| schema_element_json(s.schema_facts@[i])),
                ),
            ),
            ("key_value_metadata"@, key_values_json(s.key_value_metadata)),
            (
                "column_orders"@,
                match s.facts.column_orders {
                    Some(o) => text_array(o@),
                    None => Json::Null,
                },
            ),
            ("encryption_algorithm"@, Json::Text(s.facts.encryption_algorithm@)),
            ("footer_signing_key_metadata"@, opt_hex(s.facts.footer_signing_key_metadata)),
        ],
    )
}

/// Statistics' JSON view: maximum and minimum in hexadecimal, null and
/// distinct counts.
pub open spec fn statistics_json(st: StatisticsInfo) -> Json {
    Json::Object(
        seq![
            ("max"@, opt_hex(st.max_value)),
            ("min"@, opt_hex(st.min_value)),
            ("null_count"@, opt_num(opt_i64(st.null_count))),
            ("distinct_count"@, opt_num(opt_i64(st.distinct_count))),
        ],
    )
}

/// Optional statistics' JSON view, or null.
pub open spec fn opt_statistics_json(o: Option<StatisticsInfo>) -> Json {
    match o {
        Some(st) => statistics_json(st),
        None => Json::Null,
    }
}

/// The JSON view of a column chunk's metadata.
pub open spec fn column_meta_json(m: ColumnMeta, x: ColumnMetaFacts) -> Json {
    Json::Object(
        seq![
            ("type"@, Json::Text(m.physical_type.spec_name())),
            ("encodings"@, text_array(x.encodings@)),
            ("path_in_schema"@, text_array(m.path_in_schema@)),
            ("codec"@, Json::Text(m.codec.spec_name())),
            ("num_values"@, Json::Num(m.num_values as int)),
            ("total_uncompressed_size"@, Json::Num(x.total_uncompressed_size as int)),
            ("total_compressed_size"@, Json::Num(x.total_compressed_size as int)),
            ("data_page_offset"@, Json::Num(m.data_page_offset as int)),
            ("index_page_offset"@, opt_num(opt_i64(x.index_page_offset))),
            ("dictionary_page_offset"@, opt_num(opt_i64(m.dictionary_page_offset))),
            ("statistics"@, opt_statistics_json(x.statistics)),
        ],
    )
}

/// The JSON view of a column chunk: where it lies, and its metadata.
pub open spec fn column_chunk_json(c: ColumnChunkFacts, m: ColumnMeta, x: ColumnMetaFacts) -> Json {
    Json::Object(
        seq![
            ("file_path"@, opt_text(opt_str(c.file_path))),
            ("file_offset"@, Json::Num(c.file_offset as int)),
            ("metadata"@, column_meta_json(m, x)),
        ],
    )
}

/// Whether every column chunk of row group `index` has metadata.
pub open spec fn row_group_has_metadata(s: FileSummary, index: int) -> bool {
    forall|j: int| 0 <= j < s.row_groups@[index]@.len() ==> (#[trigger] s.row_groups@[index]@[j]).meta_data is Some
}

/// The JSON view of row group `index`: its index, row count, byte size,
/// number of columns and its column chunks.
pub open spec fn row_group_json(s: FileSummary, index: int) -> Json {
    let g = s.facts.row_groups@[index];
    let chunks = s.row_groups@[index]@;
    Json::Object(
        seq![
            ("row_group_index"@, Json::Num(index)),
            ("num_rows"@, Json::Num(g.num_rows as int)),
            ("total_byte_size"@, Json::Num(g.total_byte_size as int)),
            ("num_columns"@, Json::Num(chunks.len() as int)),
            (
                "columns"@,
                Json::Array(
                    Seq::new(
                        chunks.len(),
                        |j: int|
                            column_chunk_json(
                                g.columns@[j],
                                chunks[j].meta_data->0,
                                s.column_meta_facts@[index]@[j]->0,
                            ),
                    ),
                ),
            ),
        ],
    )
}

fn schema_element_to_json(e: &SchemaFacts) -> (j: JsonValue)
    ensures
        j@ == schema_element_json(*e),
{
    let mut ms = no_members();
    add_member(&mut ms, "type", text_of(&e.physical_type));
    add_member(&mut ms, "type_length", opt_i32_value(e.type_length));
    add_member(&mut ms, "repetition_type", text_of(&e.repetition_type));
    add_member(&mut ms, "name", text_of(&e.name));
    add_member(&mut ms, "num_children", opt_i32_value(e.num_children));
    add_member(&mut ms, "converted_type", text_of(&e.converted_type));
    add_member(&mut ms, "scale", opt_i32_value(e.scale));
    add_member(&mut ms, "precision", opt_i32_value(e.precision));
    add_member(&mut ms, "field_id", opt_i32_value(e.field_id));
    add_member(&mut ms, "logical_type", text_of(&e.logical_type));
    assert(members_json(ms@) =~= schema_element_json(*e)->Object_0);
    object(ms)
}

fn schema_to_json(elements: &Vec<SchemaFacts>) -> (j: JsonValue)
    ensures
        j@ == Json::Array(Seq::new(elements@.len(), |i: int| schema_element_json(elements@[i]))),
{
    let mut items: Vec<JsonValue> = Vec::new();
    let mut i: usize = 0;
    while i < elements.len()
        invariant
            i <= elements.len(),
            items_json(items@) == Seq::new(i as nat, |k: int| schema_element_json(elements@[k])),
        decreases elements.len() - i,
    {
        add_item(&mut items, schema_element_to_json(&elements[i]));
        assert(items_json(items@) =~= Seq::new((i + 1) as nat, |k: int| schema_element_json(elements@[k])));
        i = i + 1;
    }
    array(items)
}

fn key_value_to_json(kv: &(String, Option<String>)) -> (j: JsonValue)
    ensures
        j@ == key_value_json(*kv),
{
    let mut ms = no_members();
    add_member(&mut ms, "key", text_of(&kv.0));
    add_member(&mut ms, "value", opt_text_value(&kv.1));
    assert(members_json(ms@) =~= key_value_json(*kv)->Object_0);
    object(ms)
}

fn key_values_to_json(kv: &Option<Vec<(String, Option<String>)>>) -> (j: JsonValue)
    ensures
        j@ == key_values_json(*kv),
{
    match kv {
        None => JsonValue::Null,
        Some(v) => {
            let mut items: Vec<JsonValue> = Vec::new();
            let mut i: usize = 0;
            while i < v.len()
                invariant
                    i <= v.len(),
                    items_json(items@) == Seq::new(i as nat, |k: int| key_value_json(v@[k])),
                decreases v.len() - i,
            {
                add_item(&mut items, key_value_to_json(&v[i]));
                assert(items_json(items@) =~= Seq::new((i + 1) as nat, |k: int| key_value_json(v@[k])));
                i = i + 1;
            }
            array(items)
        },
    }
}

/// The file metadata as JSON, with enum fields by their names.
pub fn file_metadata_to_json(summary: &FileSummary) -> (j: JsonValue)
    ensures
        j@ == file_metadata_json(*summary),
{
    let facts = &summary.facts;
    let mut ms = no_members();
    add_member(&mut ms, "version", JsonValue::Int(facts.version as i64));
    add_member(&mut ms, "num_rows", JsonValue::Int(facts.num_rows));
    add_member(&mut ms, "created_by", opt_text_value(&facts.created_by));
    add_member(&mut ms, "num_row_groups", JsonValue::UInt(summary.row_groups.len() as u64));
    add_member(&mut ms, "schema", schema_to_json(&summary.schema_facts));
    add_member(&mut ms, "key_value_metadata", key_values_to_json(&summary.key_value_metadata));
    let orders = match &facts.column_orders {
        Some(o) => text_array_value(o),
        None => JsonValue::Null,
    };
    add_member(&mut ms, "column_orders", orders);
    add_member(&mut ms, "encryption_algorithm", text_of(&facts.encryption_algorithm));
    add_member(&mut ms, "footer_signing_key_metadata", opt_hex_value(&facts.footer_signing_key_metadata));
    assert(members_json(ms@) =~= file_metadata_json(*summary)->Object_0);
    object(ms)
}

fn statistics_to_json(st: &StatisticsInfo) -> (j: JsonValue)
    ensures
        j@ == statistics_json(*st),
{
    let mut ms = no_members();
    add_member(&mut ms, "max", opt_hex_value(&st.max_value));
    add_member(&mut ms, "min", opt_hex_value(&st.min_value));
    add_member(&mut ms, "null_count", opt_i64_value(st.null_count));
    add_member(&mut ms, "distinct_count", opt_i64_value(st.distinct_count));
    assert(members_json(ms@) =~= statistics_json(*st)->Object_0);
    object(ms)
}

fn opt_statistics_to_json(o: &Option<StatisticsInfo>) -> (j: JsonValue)
    ensures
        j@ == opt_statistics_json(*o),
{
    match o {
        Some(st) => statistics_to_json(st),
        None => JsonValue::Null,
    }
}

fn column_meta_to_json(m: &ColumnMeta, x: &ColumnMetaFacts) -> (j: JsonValue)
    ensures
        j@ == column_meta_json(*m, *x),
{
    let mut ms = no_members();
    add_member(&mut ms, "type", text(m.physical_type.name()));
    add_member(&mut ms, "encodings", text_array_value(&x.encodings));
    add_member(&mut ms, "path_in_schema", text_array_value(&m.path_in_schema));
    add_member(&mut ms, "codec", text(m.codec.name()));
    add_member(&mut ms, "num_values", JsonValue::Int(m.num_values));
    add_member(&mut ms, "total_uncompressed_size", JsonValue::Int(x.total_uncompressed_size));
    add_member(&mut ms, "total_compressed_size", JsonValue::Int(x.total_compressed_size));
    add_member(&mut ms, "data_page_offset", JsonValue::Int(m.data_page_offset));
    add_member(&mut ms, "index_page_offset", opt_i64_value(x.index_page_offset));
    add_member(&mut ms, "dictionary_page_offset", opt_i64_value(m.dictionary_page_offset));
    add_member(&mut ms, "statistics", opt_statistics_to_json(&x.statistics));
    assert(members_json(ms@) =~= column_meta_json(*m, *x)->Object_0);
    object(ms)
}

fn column_chunk_to_json(c: &ColumnChunkFacts, m: &ColumnMeta, x: &ColumnMetaFacts) -> (j: JsonValue)
    ensures
        j@ == column_chunk_json(*c, *m, *x),
{
    let mut ms = no_members();
    add_member(&mut ms, "file_path", opt_text_value(&c.file_path));
    add_member(&mut ms, "file_offset", JsonValue::Int(c.file_offset));
    add_member(&mut ms, "metadata", column_meta_to_json(m, x));
    assert(members_json(ms@) =~= column_chunk_json(*c, *m, *x)->Object_0);
    object(ms)
}

/// Row group `index` as JSON, with enum fields by their names.  Every
/// column chunk of the group must have metadata.
pub fn row_group_to_json(summary: &FileSummary, index: usize) -> (j: JsonValue)
    requires
        summary.wf(),
        index < summary.row_groups@.len(),
        row_group_has_metadata(*summary, index as int),
    ensures
        j@ == row_group_json(*summary, index as int),
{
    let g = &summary.facts.row_groups[index];
    let chunks = &summary.row_groups[index];
    let metas = &summary.column_meta_facts[index];
    assert(chunks@.len() == g.columns@.len() && chunks@.len() == metas@.len());
    let mut items: Vec<JsonValue> = Vec::new();
    let mut k: usize = 0;
    while k < chunks.len()
        invariant
            k <= chunks.len(),
            chunks == summary.row_groups@[index as int],
            g == summary.facts.row_groups@[index as int],
            metas == summary.column_meta_facts@[index as int],
            chunks@.len() == g.columns@.len(),
            chunks@.len() == metas@.len(),
            summary.wf(),
            index < summary.row_groups@.len(),
            row_group_has_metadata(*summary, index as int),
            items_json(items@) == Seq::new(
                k as nat,
                |t: int| column_chunk_json(g.columns@[t], chunks@[t].meta_data->0, metas@[t]->0),
            ),
        decreases chunks.len() - k,
    {
        assert(chunks@[k as int].meta_data is Some);
        assert(metas@[k as int] is Some);
        let m = match &chunks[k].meta_data {
            Some(m) => m,
            None => {
                return JsonValue::Null;
            },
        };
        let x = match &metas[k] {
            Some(x) => x,
            None => {
                return JsonValue::Null;
            },
        };
        add_item(&mut items, column_chunk_to_json(&g.columns[k], m, x));
        assert(items_json(items@) =~= Seq::new(
            (k + 1) as nat,
            |t: int| column_chunk_json(g.columns@[t], chunks@[t].meta_data->0, metas@[t]->0),
        ));
        k = k + 1;
    }
    let mut ms = no_members();
    add_member(&mut ms, "row_group_index", JsonValue::UInt(index as u64));
    add_member(&mut ms, "num_rows", JsonValue::Int(g.num_rows));
    add_member(&mut ms, "total_byte_size", JsonValue::Int(g.total_byte_size));
    add_member(&mut ms, "num_columns", JsonValue::UInt(chunks.len() as u64));
    add_member(&mut ms, "columns", array(items));
    assert(members_json(ms@) =~= row_group_json(*summary, index as int)->Object_0);
    object(ms)
}

/// A data page header's JSON view.
pub open spec fn data_page_json(p: DataPageDetails) -> Json {
    Json::Object(
        seq![
            ("num_values"@, Json::Num(p.num_values as int)),
            ("encoding"@, Json::Text(p.encoding@)),
            ("definition_level_encoding"@, Json::Text(p.definition_level_encoding@)),
            ("repetition_level_encoding"@, Json::Text(p.repetition_level_encoding@)),
            ("statistics"@, opt_statistics_json(p.statistics)),
        ],
    )
}

/// A dictionary page header's JSON view.
pub open spec fn dictionary_page_json(p: DictionaryPageDetails) -> Json {
    Json::Object(
        seq![
            ("num_values"@, Json::Num(p.num_values as int)),
            ("encoding"@, Json::Text(p.encoding@)),
            ("is_sorted"@, opt_bool(p.is_sorted)),
        ],
    )
}

/// A version 2 data page header's JSON view.
pub open spec fn data_page_v2_json(p: DataPageV2Details) -> Json {
    Json::Object(
        seq![
            ("num_values"@, Json::Num(p.num_values as int)),
            ("num_nulls"@, Json::Num(p.num_nulls as int)),
            ("num_rows"@, Json::Num(p.num_rows as int)),
            ("encoding"@, Json::Text(p.encoding@)),
            ("definition_levels_byte_length"@, Json::Num(p.definition_levels_byte_length as int)),
            ("repetition_levels_byte_length"@, Json::Num(p.repetition_levels_byte_length as int)),
            ("is_compressed"@, opt_bool(p.is_compressed)),
            ("statistics"@, opt_statistics_json(p.statistics)),
        ],
    )
}

/// The JSON view of a page header: its number, type, sizes and checksum,
/// then each sub-header that it has.
pub open spec fn page_header_json(s: PageHeaderSummary, d: PageHeaderDetails, page_number: nat) -> Json {
    Json::Object(
        seq![
            ("page_number"@, Json::Num(page_number as int)),
            ("type"@, Json::Text(d.page_type@)),
            ("uncompressed_page_size"@, Json::Num(s.uncompressed_page_size as int)),
            ("compressed_page_size"@, Json::Num(s.compressed_page_size as int)),
            ("crc"@, opt_num(opt_i32(d.crc))),
        ] + match d.data_page {
            Some(p) => seq![("data_page_header"@, data_page_json(p))],
            None => Seq::empty(),
        } + match d.dictionary_page {
            Some(p) => seq![("dictionary_page_header"@, dictionary_page_json(p))],
            None => Seq::empty(),
        } + match d.data_page_v2 {
            Some(p) => seq![("data_page_header_v2"@, data_page_v2_json(p))],
            None => Seq::empty(),
        },
    )
}

fn data_page_to_json(p: &DataPageDetails) -> (j: JsonValue)
    ensures
        j@ == data_page_json(*p),
{
    let mut ms = no_members();
    add_member(&mut ms, "num_values", JsonValue::Int(p.num_values as i64));
    add_member(&mut ms, "encoding", text_of(&p.encoding));
    add_member(&mut ms, "definition_level_encoding", text_of(&p.definition_level_encoding));
    add_member(&mut ms, "repetition_level_encoding", text_of(&p.repetition_level_encoding));
    add_member(&mut ms, "statistics", opt_statistics_to_json(&p.statistics));
    assert(members_json(ms@) =~= data_page_json(*p)->Object_0);
    object(ms)
}

fn dictionary_page_to_json(p: &DictionaryPageDetails) -> (j: JsonValue)
    ensures
        j@ == dictionary_page_json(*p),
{
    let mut ms = no_members();
    add_member(&mut ms, "num_values", JsonValue::Int(p.num_values as i64));
    add_member(&mut ms, "encoding", text_of(&p.encoding));
    add_member(&mut ms, "is_sorted", opt_bool_value(p.is_sorted));
    assert(members_json(ms@) =~= dictionary_page_json(*p)->Object_0);
    object(ms)
}

fn data_page_v2_to_json(p: &DataPageV2Details) -> (j: JsonValue)
    ensures
        j@ == data_page_v2_json(*p),
{
    let mut ms = no_members();
    add_member(&mut ms, "num_values", JsonValue::Int(p.num_values as i64));
    add_member(&mut ms, "num_nulls", JsonValue::Int(p.num_nulls as i64));
    add_member(&mut ms, "num_rows", JsonValue::Int(p.num_rows as i64));
    add_member(&mut ms, "encoding", text_of(&p.encoding));
    add_member(&mut ms, "definition_levels_byte_length", JsonValue::Int(p.definition_levels_byte_length as i64));
    add_member(&mut ms, "repetition_levels_byte_length", JsonValue::Int(p.repetition_levels_byte_length as i64));
    add_member(&mut ms, "is_compressed", opt_bool_value(p.is_compressed));
    add_member(&mut ms, "statistics", opt_statistics_to_json(&p.statistics));
    assert(members_json(ms@) =~= data_page_v2_json(*p)->Object_0);
    object(ms)
}

/// A page header as JSON, with enum fields by their names: `summary` and
/// `details` are the fields of one header, `page_number` its number in the
/// column chunk.
pub fn page_header_to_json(summary: &PageHeaderSummary, details: &PageHeaderDetails, page_number: usize) -> (j: JsonValue)
    ensures
        j@ == page_header_json(*summary, *details, page_number as nat),
{
    let mut ms = no_members();
    add_member(&mut ms, "page_number", JsonValue::UInt(page_number as u64));
    add_member(&mut ms, "type", text_of(&details.page_type));
    add_member(&mut ms, "uncompressed_page_size", JsonValue::Int(summary.uncompressed_page_size as i64));
    add_member(&mut ms, "compressed_page_size", JsonValue::Int(summary.compressed_page_size as i64));
    add_member(&mut ms, "crc", opt_i32_value(details.crc));
    let ghost base = members_json(ms@);
    if let Some(p) = &details.data_page {
        add_member(&mut ms, "data_page_header", data_page_to_json(p));
    }
    let ghost with_data = members_json(ms@);
    assert(with_data =~= base + match details.data_page {
        Some(p) => seq![("data_page_header"@, data_page_json(p))],
        None => Seq::<(Seq<char>, Json)>::empty(),
    });
    if let Some(p) = &details.dictionary_page {
        add_member(&mut ms, "dictionary_page_header", dictionary_page_to_json(p));
    }
    let ghost with_dictionary = members_json(ms@);
    assert(with_dictionary =~= with_data + match details.dictionary_page {
        Some(p) => seq![("dictionary_page_header"@, dictionary_page_json(p))],
        None => Seq::<(Seq<char>, Json)>::empty(),
    });
    if let Some(p) = &details.data_page_v2 {
        add_member(&mut ms, "data_page_header_v2", data_page_v2_to_json(p));
    }
    assert(members_json(ms@) =~= with_dictionary + match details.data_page_v2 {
        Some(p) => seq![("data_page_header_v2"@, data_page_v2_json(p))],
        None => Seq::<(Seq<char>, Json)>::empty(),
    });
    assert(members_json(ms@) =~= page_header_json(*summary, *details, page_number as nat)->Object_0);
    object(ms)
}

/// Key/value pairs as a JSON object, in their order.
pub open spec fn pairs_json(pairs: Seq<(String, String)>) -> Json {
    Json::Object(Seq::new(pairs.len(), |i: int| (pairs[i].0@, Json::Text(pairs[i].1@))))
}

/// An Arrow field's JSON view.
pub open spec fn arrow_field_json(f: ArrowFieldInfo) -> Json {
    Json::Object(
        seq![
            ("name"@, Json::Text(f.name@)),
            ("data_type"@, Json::Text(f.data_type@)),
            ("nullable"@, Json::Bool(f.nullable)),
            ("metadata"@, pairs_json(f.metadata@)),
        ],
    )
}

/// An Arrow schema's JSON view: its fields and its metadata.
pub open spec fn arrow_schema_json(s: ArrowSchemaInfo) -> Json {
    Json::Object(
        seq![
            ("fields"@, Json::Array(Seq::new(s.fields@.len(), |i: int| arrow_field_json(s.fields@[i])))),
            ("metadata"@, pairs_json(s.metadata@)),
        ],
    )
}

fn pairs_to_json(pairs: &Vec<(String, String)>) -> (j: JsonValue)
    ensures
        j@ == pairs_json(pairs@),
{
    let mut ms = no_members();
    let mut i: usize = 0;
    while i < pairs.len()
        invariant
            i <= pairs.len(),
            members_json(ms@) == Seq::new(i as nat, |k: int| (pairs@[k].0@, Json::Text(pairs@[k].1@))),
        decreases pairs.len() - i,
    {
        add_member(&mut ms, pairs[i].0.as_str(), text_of(&pairs[i].1));
        assert(members_json(ms@) =~= Seq::new((i + 1) as nat, |k: int| (pairs@[k].0@, Json::Text(pairs@[k].1@))));
        i = i + 1;
    }
    object(ms)
}

fn arrow_field_to_json(f: &ArrowFieldInfo) -> (j: JsonValue)
    ensures
        j@ == arrow_field_json(*f),
{
    let mut ms = no_members();
    add_member(&mut ms, "name", text_of(&f.name));
    add_member(&mut ms, "data_type", text_of(&f.data_type));
    add_member(&mut ms, "nullable", JsonValue::Bool(f.nullable));
    add_member(&mut ms, "metadata", pairs_to_json(&f.metadata));
    assert(members_json(ms@) =~= arrow_field_json(*f)->Object_0);
    object(ms)
}

/// A decoded Arrow schema as JSON: its fields and its metadata.
pub fn arrow_schema_to_json(schema: &ArrowSchemaInfo) -> (j: JsonValue)
    ensures
        j@ == arrow_schema_json(*schema),
{
    let mut items: Vec<JsonValue> = Vec::new();
    let mut i: usize = 0;
    while i < schema.fields.len()
        invariant
            i <= schema.fields.len(),
            items_json(items@) == Seq::new(i as nat, |k: int| arrow_field_json(schema.fields@[k])),
        decreases schema.fields.len() - i,
    {
        add_item(&mut items, arrow_field_to_json(&schema.fields[i]));
        assert(items_json(items@) =~= Seq::new((i + 1) as nat, |k: int| arrow_field_json(schema.fields@[k])));
        i = i + 1;
    }
    let mut ms = no_members();
    add_member(&mut ms, "fields", array(items));
    add_member(&mut ms, "metadata", pairs_to_json(&schema.metadata));
    assert(members_json(ms@) =~= arrow_schema_json(*schema)->Object_0);
    object(ms)
}

/// Each member of a column chunk's metadata view holds the metadata field
/// of the same name.
pub proof fn lemma_column_meta_json_members(m: ColumnMeta, x: ColumnMetaFacts)
    ensures
        json_get(column_meta_json(m, x), "type"@) == Some(Json::Text(m.physical_type.spec_name())),
        json_get(column_meta_json(m, x), "encodings"@) == Some(text_array(x.encodings@)),
        json_get(column_meta_json(m, x), "path_in_schema"@) == Some(text_array(m.path_in_schema@)),
        json_get(column_meta_json(m, x), "codec"@) == Some(Json::Text(m.codec.spec_name())),
        json_get(column_meta_json(m, x), "num_values"@) == Some(Json::Num(m.num_values as int)),
        json_get(column_meta_json(m, x), "total_uncompressed_size"@) == Some(
            Json::Num(x.total_uncompressed_size as int),
        ),
        json_get(column_meta_json(m, x), "total_compressed_size"@) == Some(
            Json::Num(x.total_compressed_size as int),
        ),
        json_get(column_meta_json(m, x), "data_page_offset"@) == Some(
            Json::Num(m.data_page_offset as int),
        ),
        json_get(column_meta_json(m, x), "index_page_offset"@) == Some(
            opt_num(opt_i64(x.index_page_offset)),
        ),
        json_get(column_meta_json(m, x), "dictionary_page_offset"@) == Some(
            opt_num(opt_i64(m.dictionary_page_offset)),
        ),
        json_get(column_meta_json(m, x), "statistics"@) == Some(opt_statistics_json(x.statistics)),
{
    let ms = column_meta_json(m, x)->Object_0;
    reveal_strlit("codec");
    reveal_strlit("data_page_offset");
    reveal_strlit("dictionary_page_offset");
    reveal_strlit("encodings");
    reveal_strlit("index_page_offset");
    reveal_strlit("num_values");
    reveal_strlit("path_in_schema");
    reveal_strlit("statistics");
    reveal_strlit("total_compressed_size");
    reveal_strlit("total_uncompressed_size");
    reveal_strlit("type");
    assert(ms[0].0 == "type"@);
    assert(ms[1].0 == "encodings"@);
    assert(ms[2].0 == "path_in_schema"@);
    assert(ms[3].0 == "codec"@);
    assert(ms[4].0 == "num_values"@);
    assert(ms[5].0 == "total_uncompressed_size"@);
    assert(ms[6].0 == "total_compressed_size"@);
    assert(ms[7].0 == "data_page_offset"@);
    assert(ms[8].0 == "index_page_offset"@);
    assert(ms[9].0 == "dictionary_page_offset"@);
    assert(ms[10].0 == "statistics"@);
    assert forall|j: int| 0 < j < ms.len() implies (#[trigger] ms[j]).0 != ms[0].0 by { if j == 1 { assert(ms[1].0 == "encodings"@); } else if j == 2 { assert(ms[2].0 == "path_in_schema"@); } else if j == 3 { assert(ms[3].0 == "codec"@); } else if j == 4 { assert(ms[4].0 == "num_values"@); } else if j == 5 { assert(ms[5].0 == "total_uncompressed_size"@); } else if j == 6 { assert(ms[6].0 == "total_compressed_size"@); } else if j == 7 { assert(ms[7].0 == "data_page_offset"@); } else if j == 8 { assert(ms[8].0 == "index_page_offset"@); } else if j == 9 { assert(ms[9].0 == "dictionary_page_offset"@); } else if j == 10 { assert(ms[10].0 == "statistics"@); } }
    lemma_member_at(ms, 0);
    assert forall|j: int| 1 < j < ms.len() implies (#[trigger] ms[j]).0 != ms[1].0 by { if j == 2 { assert(ms[2].0 == "path_in_schema"@); } else if j == 3 { assert(ms[3].0 == "codec"@); } else if j == 4 { assert(ms[4].0 == "num_values"@); } else if j == 5 { assert(ms[5].0 == "total_uncompressed_size"@); } else if j == 6 { assert(ms[6].0 == "total_compressed_size"@); } else if j == 7 { assert(ms[7].0 == "data_page_offset"@); } else if j == 8 { assert(ms[8].0 == "index_page_offset"@); } else if j == 9 { assert(ms[9].0 == "dictionary_page_offset"@); } else if j == 10 { assert(ms[10].0 == "statistics"@); } }
    lemma_member_at(ms, 1);
    assert forall|j: int| 2 < j < ms.len() implies (#[trigger] ms[j]).0 != ms[2].0 by { if j == 3 { assert(ms[3].0 == "codec"@); } else if j == 4 { assert(ms[4].0 == "num_values"@); } else if j == 5 { assert(ms[5].0 == "total_uncompressed_size"@); } else if j == 6 { assert(ms[6].0 == "total_compressed_size"@); } else if j == 7 { assert(ms[7].0 == "data_page_offset"@); } else if j == 8 { assert(ms[8].0 == "index_page_offset"@); } else if j == 9 { assert(ms[9].0 == "dictionary_page_offset"@); } else if j == 10 { assert(ms[10].0 == "statistics"@); } }
    lemma_member_at(ms, 2);
    assert forall|j: int| 3 < j < ms.len() implies (#[trigger] ms[j]).0 != ms[3].0 by { if j == 4 { assert(ms[4].0 == "num_values"@); } else if j == 5 { assert(ms[5].0 == "total_uncompressed_size"@); } else if j == 6 { assert(ms[6].0 == "total_compressed_size"@); } else if j == 7 { assert(ms[7].0 == "data_page_offset"@); } else if j == 8 { assert(ms[8].0 == "index_page_offset"@); } else if j == 9 { assert(ms[9].0 == "dictionary_page_offset"@); } else if j == 10 { assert(ms[10].0 == "statistics"@); } }
    lemma_member_at(ms, 3);
    assert forall|j: int| 4 < j < ms.len() implies (#[trigger] ms[j]).0 != ms[4].0 by { if j == 5 { assert(ms[5].0 == "total_uncompressed_size"@); } else if j == 6 { assert(ms[6].0 == "total_compressed_size"@); } else if j == 7 { assert(ms[7].0 == "data_page_offset"@); } else if j == 8 { assert(ms[8].0 == "index_page_offset"@); } else if j == 9 { assert(ms[9].0 == "dictionary_page_offset"@); } else if j == 10 { assert(ms[10].0 == "statistics"@); assert("num_values"@[0] != "statistics"@[0]); } }
    lemma_member_at(ms, 4);
    assert forall|j: int| 5 < j < ms.len() implies (#[trigger] ms[j]).0 != ms[5].0 by { if j == 6 { assert(ms[6].0 == "total_compressed_size"@); } else if j == 7 { assert(ms[7].0 == "data_page_offset"@); } else if j == 8 { assert(ms[8].0 == "index_page_offset"@); } else if j == 9 { assert(ms[9].0 == "dictionary_page_offset"@); } else if j == 10 { assert(ms[10].0 == "statistics"@); } }
    lemma_member_at(ms, 5);
    assert forall|j: int| 6 < j < ms.len() implies (#[trigger] ms[j]).0 != ms[6].0 by { if j == 7 { assert(ms[7].0 == "data_page_offset"@); } else if j == 8 { assert(ms[8].0 == "index_page_offset"@); } else if j == 9 { assert(ms[9].0 == "dictionary_page_offset"@); } else if j == 10 { assert(ms[10].0 == "statistics"@); } }
    lemma_member_at(ms, 6);
    assert forall|j: int| 7 < j < ms.len() implies (#[trigger] ms[j]).0 != ms[7].0 by { if j == 8 { assert(ms[8].0 == "index_page_offset"@); } else if j == 9 { assert(ms[9].0 == "dictionary_page_offset"@); } else if j == 10 { assert(ms[10].0 == "statistics"@); } }
    lemma_member_at(ms, 7);
    assert forall|j: int| 8 < j < ms.len() implies (#[trigger] ms[j]).0 != ms[8].0 by { if j == 9 { assert(ms[9].0 == "dictionary_page_offset"@); } else if j == 10 { assert(ms[10].0 == "statistics"@); } }
    lemma_member_at(ms, 8);
    assert forall|j: int| 9 < j < ms.len() implies (#[trigger] ms[j]).0 != ms[9].0 by { if j == 10 { assert(ms[10].0 == "statistics"@); } }
    lemma_member_at(ms, 9);
    lemma_member_at(ms, 10);
}

/// Each member of a page header's JSON view holds the header field of the
/// same name, and the view holds a sub-header exactly where the header has
/// one.
pub proof fn lemma_page_header_json_members(s: PageHeaderSummary, d: PageHeaderDetails, n: nat)
    ensures
        json_get(page_header_json(s, d, n), "page_number"@) == Some(Json::Num(n as int)),
        json_get(page_header_json(s, d, n), "type"@) == Some(Json::Text(d.page_type@)),
        json_get(page_header_json(s, d, n), "uncompressed_page_size"@) == Some(Json::Num(s.uncompressed_page_size as int)),
        json_get(page_header_json(s, d, n), "compressed_page_size"@) == Some(Json::Num(s.compressed_page_size as int)),
        json_get(page_header_json(s, d, n), "crc"@) == Some(opt_num(opt_i32(d.crc))),
        json_get(page_header_json(s, d, n), "data_page_header"@) == match d.data_page {
            Some(p) => Some(data_page_json(p)),
            None => None,
        },
        json_get(page_header_json(s, d, n), "dictionary_page_header"@) == match d.dictionary_page {
            Some(p) => Some(dictionary_page_json(p)),
            None => None,
        },
        json_get(page_header_json(s, d, n), "data_page_header_v2"@) == match d.data_page_v2 {
            Some(p) => Some(data_page_v2_json(p)),
            None => None,
        },
{
    let ms = page_header_json(s, d, n)->Object_0;
    match (d.data_page, d.dictionary_page, d.data_page_v2) {
        (Some(p1), Some(p2), Some(p3)) => {
            assert(ms =~= seq![
                ("page_number"@, Json::Num(n as int)),
                ("type"@, Json::Text(d.page_type@)),
                ("uncompressed_page_size"@, Json::Num(s.uncompressed_page_size as int)),
                ("compressed_page_size"@, Json::Num(s.compressed_page_size as int)),
                ("crc"@, opt_num(opt_i32(d.crc))),
                ("data_page_header"@, data_page_json(p1)),
                ("dictionary_page_header"@, dictionary_page_json(p2)),
                ("data_page_header_v2"@, data_page_v2_json(p3)),
            ]);
            reveal_strlit("compressed_page_size");
            reveal_strlit("crc");
            reveal_strlit("data_page_header");
            reveal_strlit("data_page_header_v2");
            reveal_strlit("dictionary_page_header");
            reveal_strlit("page_number");
            reveal_strlit("type");
            reveal_strlit("uncompressed_page_size");
            assert(ms[0].0 == "page_number"@);
            assert(ms[1].0 == "type"@);
            assert(ms[2].0 == "uncompressed_page_size"@);
            assert(ms[3].0 == "compressed_page_size"@);
            assert(ms[4].0 == "crc"@);
            assert(ms[5].0 == "data_page_header"@);
            assert(ms[6].0 == "dictionary_page_header"@);
            assert(ms[7].0 == "data_page_header_v2"@);
            assert forall|j: int| 0 < j < ms.len() implies (#[trigger] ms[j]).0 != ms[0].0 by { if j == 1 { assert(ms[1].0 == "type"@); } else if j == 2 { assert(ms[2].0 == "uncompressed_page_size"@); } else if j == 3 { assert(ms[3].0 == "compressed_page_size"@); } else if j == 4 { assert(ms[4].0 == "crc"@); } else if j == 5 { assert(ms[5].0 == "data_page_header"@); } else if j == 6 { assert(ms[6].0 == "dictionary_page_header"@); } else if j == 7 { assert(ms[7].0 == "data_page_header_v2"@); } }
            lemma_member_at(ms, 0);
            assert forall|j: int| 1 < j < ms.len() implies (#[trigger] ms[j]).0 != ms[1].0 by { if j == 2 { assert(ms[2].0 == "uncompressed_page_size"@); } else if j == 3 { assert(ms[3].0 == "compressed_page_size"@); } else if j == 4 { assert(ms[4].0 == "crc"@); } else if j == 5 { assert(ms[5].0 == "data_page_header"@); } else if j == 6 { assert(ms[6].0 == "dictionary_page_header"@); } else if j == 7 { assert(ms[7].0 == "data_page_header_v2"@); } }
            lemma_member_at(ms, 1);
            assert forall|j: int| 2 < j < ms.len() implies (#[trigger] ms[j]).0 != ms[2].0 by { if j == 3 { assert(ms[3].0 == "compressed_page_size"@); } else if j == 4 { assert(ms[4].0 == "crc"@); } else if j == 5 { assert(ms[5].0 == "data_page_header"@); } else if j == 6 { assert(ms[6].0 == "dictionary_page_header"@); assert("uncompressed_page_size"@[0] != "dictionary_page_header"@[0]); } else if j == 7 { assert(ms[7].0 == "data_page_header_v2"@); } }
            lemma_member_at(ms, 2);
            assert forall|j: int| 3 < j < ms.len() implies (#[trigger] ms[j]).0 != ms[3].0 by { if j == 4 { assert(ms[4].0 == "crc"@); } else if j == 5 { assert(ms[5].0 == "data_page_header"@); } else if j == 6 { assert(ms[6].0 == "dictionary_page_header"@); } else if j == 7 { assert(ms[7].0 == "data_page_header_v2"@); } }
            lemma_member_at(ms, 3);
            assert forall|j: int| 4 < j < ms.len() implies (#[trigger] ms[j]).0 != ms[4].0 by { if j == 5 { assert(ms[5].0 == "data_page_header"@); } else if j == 6 { assert(ms[6].0 == "dictionary_page_header"@); } else if j == 7 { assert(ms[7].0 == "data_page_header_v2"@); } }
            lemma_member_at(ms, 4);
            assert forall|j: int| 5 < j < ms.len() implies (#[trigger] ms[j]).0 != ms[5].0 by { if j == 6 { assert(ms[6].0 == "dictionary_page_header"@); } else if j == 7 { assert(ms[7].0 == "data_page_header_v2"@); } }
            lemma_member_at(ms, 5);
            assert forall|j: int| 6 < j < ms.len() implies (#[trigger] ms[j]).0 != ms[6].0 by { if j == 7 { assert(ms[7].0 == "data_page_header_v2"@); } }
            lemma_member_at(ms, 6);
            lemma_member_at(ms, 7);

        },
        (Some(p1), Some(p2), None) => {
            assert(ms =~= seq![
                ("page_number"@, Json::Num(n as int)),
                ("type"@, Json::Text(d.page_type@)),
                ("uncompressed_page_size"@, Json::Num(s.uncompressed_page_size as int)),
                ("compressed_page_size"@, Json::Num(s.compressed_page_size as int)),
                ("crc"@, opt_num(opt_i32(d.crc))),
                ("data_page_header"@, data_page_json(p1)),
                ("dictionary_page_header"@, dictionary_page_json(p2)),
            ]);
            reveal_strlit("compressed_page_size");
            reveal_strlit("crc");
            reveal_strlit("data_page_header");
            reveal_strlit("dictionary_page_header");
            reveal_strlit("page_number");
            reveal_strlit("type");
            reveal_strlit("uncompressed_page_size");
            assert(ms[0].0 == "page_number"@);
            assert(ms[1].0 == "type"@);
            assert(ms[2].0 == "uncompressed_page_size"@);
            assert(ms[3].0 == "compressed_page_size"@);
            assert(ms[4].0 == "crc"@);
            assert(ms[5].0 == "data_page_header"@);
            assert(ms[6].0 == "dictionary_page_header"@);
            assert forall|j: int| 0 < j < ms.len() implies (#[trigger] ms[j]).0 != ms[0].0 by { if j == 1 { assert(ms[1].0 == "type"@); } else if j == 2 { assert(ms[2].0 == "uncompressed_page_size"@); } else if j == 3 { assert(ms[3].0 == "compressed_page_size"@); } else if j == 4 { assert(ms[4].0 == "crc"@); } else if j == 5 { assert(ms[5].0 == "data_page_header"@); } else if j == 6 { assert(ms[6].0 == "dictionary_page_header"@); } }
            lemma_member_at(ms, 0);
            assert forall|j: int| 1 < j < ms.len() implies (#[trigger] ms[j]).0 != ms[1].0 by { if j == 2 { assert(ms[2].0 == "uncompressed_page_size"@); } else if j == 3 { assert(ms[3].0 == "compressed_page_size"@); } else if j == 4 { assert(ms[4].0 == "crc"@); } else if j == 5 { assert(ms[5].0 == "data_page_header"@); } else if j == 6 { assert(ms[6].0 == "dictionary_page_header"@); } }
            lemma_member_at(ms, 1);
            assert forall|j: int| 2 < j < ms.len() implies (#[trigger] ms[j]).0 != ms[2].0 by { if j == 3 { assert(ms[3].0 == "compressed_page_size"@); } else if j == 4 { assert(ms[4].0 == "crc"@); } else if j == 5 { assert(ms[5].0 == "data_page_header"@); } else if j == 6 { assert(ms[6].0 == "dictionary_page_header"@); assert("uncompressed_page_size"@[0] != "dictionary_page_header"@[0]); } }
            lemma_member_at(ms, 2);
            assert forall|j: int| 3 < j < ms.len() implies (#[trigger] ms[j]).0 != ms[3].0 by { if j == 4 { assert(ms[4].0 == "crc"@); } else if j == 5 { assert(ms[5].0 == "data_page_header"@); } else if j == 6 { assert(ms[6].0 == "dictionary_page_header"@); } }
            lemma_member_at(ms, 3);
            assert forall|j: int| 4 < j < ms.len() implies (#[trigger] ms[j]).0 != ms[4].0 by { if j == 5 { assert(ms[5].0 == "data_page_header"@); } else if j == 6 { assert(ms[6].0 == "dictionary_page_header"@); } }
            lemma_member_at(ms, 4);
            assert forall|j: int| 5 < j < ms.len() implies (#[trigger] ms[j]).0 != ms[5].0 by { if j == 6 { assert(ms[6].0 == "dictionary_page_header"@); } }
            lemma_member_at(ms, 5);
            lemma_member_at(ms, 6);
            reveal_strlit("data_page_header_v2");
            assert forall|j: int| 0 <= j < ms.len() implies (#[trigger] ms[j]).0 != "data_page_header_v2"@ by { if j == 0 { assert(ms[0].0 == "page_number"@); } else if j == 1 { assert(ms[1].0 == "type"@); } else if j == 2 { assert(ms[2].0 == "uncompressed_page_size"@); } else if j == 3 { assert(ms[3].0 == "compressed_page_size"@); } else if j == 4 { assert(ms[4].0 == "crc"@); } else if j == 5 { assert(ms[5].0 == "data_page_header"@); } else if j == 6 { assert(ms[6].0 == "dictionary_page_header"@); } }
            lemma_member_absent(ms, "data_page_header_v2"@);
        },
        (Some(p1), None, Some(p3)) => {
            assert(ms =~= seq![
                ("page_number"@, Json::Num(n as int)),
                ("type"@, Json::Text(d.page_type@)),
                ("uncompressed_page_size"@, Json::Num(s.uncompressed_page_size as int)),
                ("compressed_page_size"@, Json::Num(s.compressed_page_size as int)),
                ("crc"@, opt_num(opt_i32(d.crc))),
                ("data_page_header"@, data_page_json(p1)),
                ("data_page_header_v2"@, data_page_v2_json(p3)),
            ]);
            reveal_strlit("compressed_page_size");
            reveal_strlit("crc");
            reveal_strlit("data_page_header");
            reveal_strlit("data_page_header_v2");
            reveal_strlit("page_number");
            reveal_strlit("type");
            reveal_strlit("uncompressed_page_size");
            assert(ms[0].0 == "page_number"@);
            assert(ms[1].0 == "type"@);
            assert(ms[2].0 == "uncompressed_page_size"@);
            assert(ms[3].0 == "compressed_page_size"@);
            assert(ms[4].0 == "crc"@);
            assert(ms[5].0 == "data_page_header"@);
            assert(ms[6].0 == "data_page_header_v2"@);
            assert forall|j: int| 0 < j < ms.len() implies (#[trigger] ms[j]).0 != ms[0].0 by { if j == 1 { assert(ms[1].0 == "type"@); } else if j == 2 { assert(ms[2].0 == "uncompressed_page_size"@); } else if j == 3 { assert(ms[3].0 == "compressed_page_size"@); } else if j == 4 { assert(ms[4].0 == "crc"@); } else if j == 5 { assert(ms[5].0 == "data_page_header"@); } else if j == 6 { assert(ms[6].0 == "data_page_header_v2"@); } }
            lemma_member_at(ms, 0);
            assert forall|j: int| 1 < j < ms.len() implies (#[trigger] ms[j]).0 != ms[1].0 by { if j == 2 { assert(ms[2].0 == "uncompressed_page_size"@); } else if j == 3 { assert(ms[3].0 == "compressed_page_size"@); } else if j == 4 { assert(ms[4].0 == "crc"@); } else if j == 5 { assert(ms[5].0 == "data_page_header"@); } else if j == 6 { assert(ms[6].0 == "data_page_header_v2"@); } }
            lemma_member_at(ms, 1);
            assert forall|j: int| 2 < j < ms.len() implies (#[trigger] ms[j]).0 != ms[2].0 by { if j == 3 { assert(ms[3].0 == "compressed_page_size"@); } else if j == 4 { assert(ms[4].0 == "crc"@); } else if j == 5 { assert(ms[5].0 == "data_page_header"@); } else if j == 6 { assert(ms[6].0 == "data_page_header_v2"@); } }
            lemma_member_at(ms, 2);
            assert forall|j: int| 3 < j < ms.len() implies (#[trigger] ms[j]).0 != ms[3].0 by { if j == 4 { assert(ms[4].0 == "crc"@); } else if j == 5 { assert(ms[5].0 == "data_page_header"@); } else if j == 6 { assert(ms[6].0 == "data_page_header_v2"@); } }
            lemma_member_at(ms, 3);
            assert forall|j: int| 4 < j < ms.len() implies (#[trigger] ms[j]).0 != ms[4].0 by { if j == 5 { assert(ms[5].0 == "data_page_header"@); } else if j == 6 { assert(ms[6].0 == "data_page_header_v2"@); } }
            lemma_member_at(ms, 4);
            assert forall|j: int| 5 < j < ms.len() implies (#[trigger] ms[j]).0 != ms[5].0 by { if j == 6 { assert(ms[6].0 == "data_page_header_v2"@); } }
            lemma_member_at(ms, 5);
            lemma_member_at(ms, 6);
            reveal_strlit("dictionary_page_header");
            assert forall|j: int| 0 <= j < ms.len() implies (#[trigger] ms[j]).0 != "dictionary_page_header"@ by { if j == 0 { assert(ms[0].0 == "page_number"@); } else if j == 1 { assert(ms[1].0 == "type"@); } else if j == 2 { assert(ms[2].0 == "uncompressed_page_size"@); assert("dictionary_page_header"@[0] != "uncompressed_page_size"@[0]); } else if j == 3 { assert(ms[3].0 == "compressed_page_size"@); } else if j == 4 { assert(ms[4].0 == "crc"@); } else if j == 5 { assert(ms[5].0 == "data_page_header"@); } else if j == 6 { assert(ms[6].0 == "data_page_header_v2"@); } }
            lemma_member_absent(ms, "dictionary_page_header"@);
        },
        (Some(p1), None, None) => {
            assert(ms =~= seq![
                ("page_number"@, Json::Num(n as int)),
                ("type"@, Json::Text(d.page_type@)),
                ("uncompressed_page_size"@, Json::Num(s.uncompressed_page_size as int)),
                ("compressed_page_size"@, Json::Num(s.compressed_page_size as int)),
                ("crc"@, opt_num(opt_i32(d.crc))),
                ("data_page_header"@, data_page_json(p1)),
            ]);
            reveal_strlit("compressed_page_size");
            reveal_strlit("crc");
            reveal_strlit("data_page_header");
            reveal_strlit("page_number");
            reveal_strlit("type");
            reveal_strlit("uncompressed_page_size");
            assert(ms[0].0 == "page_number"@);
            assert(ms[1].0 == "type"@);
            assert(ms[2].0 == "uncompressed_page_size"@);
            assert(ms[3].0 == "compressed_page_size"@);
            assert(ms[4].0 == "crc"@);
            assert(ms[5].0 == "data_page_header"@);
            assert forall|j: int| 0 < j < ms.len() implies (#[trigger] ms[j]).0 != ms[0].0 by { if j == 1 { assert(ms[1].0 == "type"@); } else if j == 2 { assert(ms[2].0 == "uncompressed_page_size"@); } else if j == 3 { assert(ms[3].0 == "compressed_page_size"@); } else if j == 4 { assert(ms[4].0 == "crc"@); } else if j == 5 { assert(ms[5].0 == "data_page_header"@); } }
            lemma_member_at(ms, 0);
            assert forall|j: int| 1 < j < ms.len() implies (#[trigger] ms[j]).0 != ms[1].0 by { if j == 2 { assert(ms[2].0 == "uncompressed_page_size"@); } else if j == 3 { assert(ms[3].0 == "compressed_page_size"@); } else if j == 4 { assert(ms[4].0 == "crc"@); } else if j == 5 { assert(ms[5].0 == "data_page_header"@); } }
            lemma_member_at(ms, 1);
            assert forall|j: int| 2 < j < ms.len() implies (#[trigger] ms[j]).0 != ms[2].0 by { if j == 3 { assert(ms[3].0 == "compressed_page_size"@); } else if j == 4 { assert(ms[4].0 == "crc"@); } else if j == 5 { assert(ms[5].0 == "data_page_header"@); } }
            lemma_member_at(ms, 2);
            assert forall|j: int| 3 < j < ms.len() implies (#[trigger] ms[j]).0 != ms[3].0 by { if j == 4 { assert(ms[4].0 == "crc"@); } else if j == 5 { assert(ms[5].0 == "data_page_header"@); } }
            lemma_member_at(ms, 3);
            assert forall|j: int| 4 < j < ms.len() implies (#[trigger] ms[j]).0 != ms[4].0 by { if j == 5 { assert(ms[5].0 == "data_page_header"@); } }
            lemma_member_at(ms, 4);
            lemma_member_at(ms, 5);
            reveal_strlit("dictionary_page_header");
            assert forall|j: int| 0 <= j < ms.len() implies (#[trigger] ms[j]).0 != "dictionary_page_header"@ by { if j == 0 { assert(ms[0].0 == "page_number"@); } else if j == 1 { assert(ms[1].0 == "type"@); } else if j == 2 { assert(ms[2].0 == "uncompressed_page_size"@); assert("dictionary_page_header"@[0] != "uncompressed_page_size"@[0]); } else if j == 3 { assert(ms[3].0 == "compressed_page_size"@); } else if j == 4 { assert(ms[4].0 == "crc"@); } else if j == 5 { assert(ms[5].0 == "data_page_header"@); } }
            lemma_member_absent(ms, "dictionary_page_header"@);
            reveal_strlit("data_page_header_v2");
            assert forall|j: int| 0 <= j < ms.len() implies (#[trigger] ms[j]).0 != "data_page_header_v2"@ by { if j == 0 { assert(ms[0].0 == "page_number"@); } else if j == 1 { assert(ms[1].0 == "type"@); } else if j == 2 { assert(ms[2].0 == "uncompressed_page_size"@); } else if j == 3 { assert(ms[3].0 == "compressed_page_size"@); } else if j == 4 { assert(ms[4].0 == "crc"@); } else if j == 5 { assert(ms[5].0 == "data_page_header"@); } }
            lemma_member_absent(ms, "data_page_header_v2"@);
        },
        (None, Some(p2), Some(p3)) => {
            assert(ms =~= seq![
                ("page_number"@, Json::Num(n as int)),
                ("type"@, Json::Text(d.page_type@)),
                ("uncompressed_page_size"@, Json::Num(s.uncompressed_page_size as int)),
                ("compressed_page_size"@, Json::Num(s.compressed_page_size as int)),
                ("crc"@, opt_num(opt_i32(d.crc))),
                ("dictionary_page_header"@, dictionary_page_json(p2)),
                ("data_page_header_v2"@, data_page_v2_json(p3)),
            ]);
            reveal_strlit("compressed_page_size");
            reveal_strlit("crc");
            reveal_strlit("data_page_header_v2");
            reveal_strlit("dictionary_page_header");
            reveal_strlit("page_number");
            reveal_strlit("type");
            reveal_strlit("uncompressed_page_size");
            assert(ms[0].0 == "page_number"@);
            assert(ms[1].0 == "type"@);
            assert(ms[2].0 == "uncompressed_page_size"@);
            assert(ms[3].0 == "compressed_page_size"@);
            assert(ms[4].0 == "crc"@);
            assert(ms[5].0 == "dictionary_page_header"@);
            assert(ms[6].0 == "data_page_header_v2"@);
            assert forall|j: int| 0 < j < ms.len() implies (#[trigger] ms[j]).0 != ms[0].0 by { if j == 1 { assert(ms[1].0 == "type"@); } else if j == 2 { assert(ms[2].0 == "uncompressed_page_size"@); } else if j == 3 { assert(ms[3].0 == "compressed_page_size"@); } else if j == 4 { assert(ms[4].0 == "crc"@); } else if j == 5 { assert(ms[5].0 == "dictionary_page_header"@); } else if j == 6 { assert(ms[6].0 == "data_page_header_v2"@); } }
            lemma_member_at(ms, 0);
            assert forall|j: int| 1 < j < ms.len() implies (#[trigger] ms[j]).0 != ms[1].0 by { if j == 2 { assert(ms[2].0 == "uncompressed_page_size"@); } else if j == 3 { assert(ms[3].0 == "compressed_page_size"@); } else if j == 4 { assert(ms[4].0 == "crc"@); } else if j == 5 { assert(ms[5].0 == "dictionary_page_header"@); } else if j == 6 { assert(ms[6].0 == "data_page_header_v2"@); } }
            lemma_member_at(ms, 1);
            assert forall|j: int| 2 < j < ms.len() implies (#[trigger] ms[j]).0 != ms[2].0 by { if j == 3 { assert(ms[3].0 == "compressed_page_size"@); } else if j == 4 { assert(ms[4].0 == "crc"@); } else if j == 5 { assert(ms[5].0 == "dictionary_page_header"@); assert("uncompressed_page_size"@[0] != "dictionary_page_header"@[0]); } else if j == 6 { assert(ms[6].0 == "data_page_header_v2"@); } }
            lemma_member_at(ms, 2);
            assert forall|j: int| 3 < j < ms.len() implies (#[trigger] ms[j]).0 != ms[3].0 by { if j == 4 { assert(ms[4].0 == "crc"@); } else if j == 5 { assert(ms[5].0 == "dictionary_page_header"@); } else if j == 6 { assert(ms[6].0 == "data_page_header_v2"@); } }
            lemma_member_at(ms, 3);
            assert forall|j: int| 4 < j < ms.len() implies (#[trigger] ms[j]).0 != ms[4].0 by { if j == 5 { assert(ms[5].0 == "dictionary_page_header"@); } else if j == 6 { assert(ms[6].0 == "data_page_header_v2"@); } }
            lemma_member_at(ms, 4);
            assert forall|j: int| 5 < j < ms.len() implies (#[trigger] ms[j]).0 != ms[5].0 by { if j == 6 { assert(ms[6].0 == "data_page_header_v2"@); } }
            lemma_member_at(ms, 5);
            lemma_member_at(ms, 6);
            reveal_strlit("data_page_header");
            assert forall|j: int| 0 <= j < ms.len() implies (#[trigger] ms[j]).0 != "data_page_header"@ by { if j == 0 { assert(ms[0].0 == "page_number"@); } else if j == 1 { assert(ms[1].0 == "type"@); } else if j == 2 { assert(ms[2].0 == "uncompressed_page_size"@); } else if j == 3 { assert(ms[3].0 == "compressed_page_size"@); } else if j == 4 { assert(ms[4].0 == "crc"@); } else if j == 5 { assert(ms[5].0 == "dictionary_page_header"@); } else if j == 6 { assert(ms[6].0 == "data_page_header_v2"@); } }
            lemma_member_absent(ms, "data_page_header"@);
        },
        (None, Some(p2), None) => {
            assert(ms =~= seq![
                ("page_number"@, Json::Num(n as int)),
                ("type"@, Json::Text(d.page_type@)),
                ("uncompressed_page_size"@, Json::Num(s.uncompressed_page_size as int)),
                ("compressed_page_size"@, Json::Num(s.compressed_page_size as int)),
                ("crc"@, opt_num(opt_i32(d.crc))),
                ("dictionary_page_header"@, dictionary_page_json(p2)),
            ]);
            reveal_strlit("compressed_page_size");
            reveal_strlit("crc");
            reveal_strlit("dictionary_page_header");
            reveal_strlit("page_number");
            reveal_strlit("type");
            reveal_strlit("uncompressed_page_size");
            assert(ms[0].0 == "page_number"@);
            assert(ms[1].0 == "type"@);
            assert(ms[2].0 == "uncompressed_page_size"@);
            assert(ms[3].0 == "compressed_page_size"@);
            assert(ms[4].0 == "crc"@);
            assert(ms[5].0 == "dictionary_page_header"@);
            assert forall|j: int| 0 < j < ms.len() implies (#[trigger] ms[j]).0 != ms[0].0 by { if j == 1 { assert(ms[1].0 == "type"@); } else if j == 2 { assert(ms[2].0 == "uncompressed_page_size"@); } else if j == 3 { assert(ms[3].0 == "compressed_page_size"@); } else if j == 4 { assert(ms[4].0 == "crc"@); } else if j == 5 { assert(ms[5].0 == "dictionary_page_header"@); } }
            lemma_member_at(ms, 0);
            assert forall|j: int| 1 < j < ms.len() implies (#[trigger] ms[j]).0 != ms[1].0 by { if j == 2 { assert(ms[2].0 == "uncompressed_page_size"@); } else if j == 3 { assert(ms[3].0 == "compressed_page_size"@); } else if j == 4 { assert(ms[4].0 == "crc"@); } else if j == 5 { assert(ms[5].0 == "dictionary_page_header"@); } }
            lemma_member_at(ms, 1);
            assert forall|j: int| 2 < j < ms.len() implies (#[trigger] ms[j]).0 != ms[2].0 by { if j == 3 { assert(ms[3].0 == "compressed_page_size"@); } else if j == 4 { assert(ms[4].0 == "crc"@); } else if j == 5 { assert(ms[5].0 == "dictionary_page_header"@); assert("uncompressed_page_size"@[0] != "dictionary_page_header"@[0]); } }
            lemma_member_at(ms, 2);
            assert forall|j: int| 3 < j < ms.len() implies (#[trigger] ms[j]).0 != ms[3].0 by { if j == 4 { assert(ms[4].0 == "crc"@); } else if j == 5 { assert(ms[5].0 == "dictionary_page_header"@); } }
            lemma_member_at(ms, 3);
            assert forall|j: int| 4 < j < ms.len() implies (#[trigger] ms[j]).0 != ms[4].0 by { if j == 5 { assert(ms[5].0 == "dictionary_page_header"@); } }
            lemma_member_at(ms, 4);
            lemma_member_at(ms, 5);
            reveal_strlit("data_page_header");
            assert forall|j: int| 0 <= j < ms.len() implies (#[trigger] ms[j]).0 != "data_page_header"@ by { if j == 0 { assert(ms[0].0 == "page_number"@); } else if j == 1 { assert(ms[1].0 == "type"@); } else if j == 2 { assert(ms[2].0 == "uncompressed_page_size"@); } else if j == 3 { assert(ms[3].0 == "compressed_page_size"@); } else if j == 4 { assert(ms[4].0 == "crc"@); } else if j == 5 { assert(ms[5].0 == "dictionary_page_header"@); } }
            lemma_member_absent(ms, "data_page_header"@);
            reveal_strlit("data_page_header_v2");
            assert forall|j: int| 0 <= j < ms.len() implies (#[trigger] ms[j]).0 != "data_page_header_v2"@ by { if j == 0 { assert(ms[0].0 == "page_number"@); } else if j == 1 { assert(ms[1].0 == "type"@); } else if j == 2 { assert(ms[2].0 == "uncompressed_page_size"@); } else if j == 3 { assert(ms[3].0 == "compressed_page_size"@); } else if j == 4 { assert(ms[4].0 == "crc"@); } else if j == 5 { assert(ms[5].0 == "dictionary_page_header"@); } }
            lemma_member_absent(ms, "data_page_header_v2"@);
        },
        (None, None, Some(p3)) => {
            assert(ms =~= seq![
                ("page_number"@, Json::Num(n as int)),
                ("type"@, Json::Text(d.page_type@)),
                ("uncompressed_page_size"@, Json::Num(s.uncompressed_page_size as int)),
                ("compressed_page_size"@, Json::Num(s.compressed_page_size as int)),
                ("crc"@, opt_num(opt_i32(d.crc))),
                ("data_page_header_v2"@, data_page_v2_json(p3)),
            ]);
            reveal_strlit("compressed_page_size");
            reveal_strlit("crc");
            reveal_strlit("data_page_header_v2");
            reveal_strlit("page_number");
            reveal_strlit("type");
            reveal_strlit("uncompressed_page_size");
            assert(ms[0].0 == "page_number"@);
            assert(ms[1].0 == "type"@);
            assert(ms[2].0 == "uncompressed_page_size"@);
            assert(ms[3].0 == "compressed_page_size"@);
            assert(ms[4].0 == "crc"@);
            assert(ms[5].0 == "data_page_header_v2"@);
            assert forall|j: int| 0 < j < ms.len() implies (#[trigger] ms[j]).0 != ms[0].0 by { if j == 1 { assert(ms[1].0 == "type"@); } else if j == 2 { assert(ms[2].0 == "uncompressed_page_size"@); } else if j == 3 { assert(ms[3].0 == "compressed_page_size"@); } else if j == 4 { assert(ms[4].0 == "crc"@); } else if j == 5 { assert(ms[5].0 == "data_page_header_v2"@); } }
            lemma_member_at(ms, 0);
            assert forall|j: int| 1 < j < ms.len() implies (#[trigger] ms[j]).0 != ms[1].0 by { if j == 2 { assert(ms[2].0 == "uncompressed_page_size"@); } else if j == 3 { assert(ms[3].0 == "compressed_page_size"@); } else if j == 4 { assert(ms[4].0 == "crc"@); } else if j == 5 { assert(ms[5].0 == "data_page_header_v2"@); } }
            lemma_member_at(ms, 1);
            assert forall|j: int| 2 < j < ms.len() implies (#[trigger] ms[j]).0 != ms[2].0 by { if j == 3 { assert(ms[3].0 == "compressed_page_size"@); } else if j == 4 { assert(ms[4].0 == "crc"@); } else if j == 5 { assert(ms[5].0 == "data_page_header_v2"@); } }
            lemma_member_at(ms, 2);
            assert forall|j: int| 3 < j < ms.len() implies (#[trigger] ms[j]).0 != ms[3].0 by { if j == 4 { assert(ms[4].0 == "crc"@); } else if j == 5 { assert(ms[5].0 == "data_page_header_v2"@); } }
            lemma_member_at(ms, 3);
            assert forall|j: int| 4 < j < ms.len() implies (#[trigger] ms[j]).0 != ms[4].0 by { if j == 5 { assert(ms[5].0 == "data_page_header_v2"@); } }
            lemma_member_at(ms, 4);
            lemma_member_at(ms, 5);
            reveal_strlit("data_page_header");
            assert forall|j: int| 0 <= j < ms.len() implies (#[trigger] ms[j]).0 != "data_page_header"@ by { if j == 0 { assert(ms[0].0 == "page_number"@); } else if j == 1 { assert(ms[1].0 == "type"@); } else if j == 2 { assert(ms[2].0 == "uncompressed_page_size"@); } else if j == 3 { assert(ms[3].0 == "compressed_page_size"@); } else if j == 4 { assert(ms[4].0 == "crc"@); } else if j == 5 { assert(ms[5].0 == "data_page_header_v2"@); } }
            lemma_member_absent(ms, "data_page_header"@);
            reveal_strlit("dictionary_page_header");
            assert forall|j: int| 0 <= j < ms.len() implies (#[trigger] ms[j]).0 != "dictionary_page_header"@ by { if j == 0 { assert(ms[0].0 == "page_number"@); } else if j == 1 { assert(ms[1].0 == "type"@); } else if j == 2 { assert(ms[2].0 == "uncompressed_page_size"@); assert("dictionary_page_header"@[0] != "uncompressed_page_size"@[0]); } else if j == 3 { assert(ms[3].0 == "compressed_page_size"@); } else if j == 4 { assert(ms[4].0 == "crc"@); } else if j == 5 { assert(ms[5].0 == "data_page_header_v2"@); } }
            lemma_member_absent(ms, "dictionary_page_header"@);
        },
        (None, None, None) => {
            assert(ms =~= seq![
                ("page_number"@, Json::Num(n as int)),
                ("type"@, Json::Text(d.page_type@)),
                ("uncompressed_page_size"@, Json::Num(s.uncompressed_page_size as int)),
                ("compressed_page_size"@, Json::Num(s.compressed_page_size as int)),
                ("crc"@, opt_num(opt_i32(d.crc))),
            ]);
            reveal_strlit("compressed_page_size");
            reveal_strlit("crc");
            reveal_strlit("page_number");
            reveal_strlit("type");
            reveal_strlit("uncompressed_page_size");
            assert(ms[0].0 == "page_number"@);
            assert(ms[1].0 == "type"@);
            assert(ms[2].0 == "uncompressed_page_size"@);
            assert(ms[3].0 == "compressed_page_size"@);
            assert(ms[4].0 == "crc"@);
            assert forall|j: int| 0 < j < ms.len() implies (#[trigger] ms[j]).0 != ms[0].0 by { if j == 1 { assert(ms[1].0 == "type"@); } else if j == 2 { assert(ms[2].0 == "uncompressed_page_size"@); } else if j == 3 { assert(ms[3].0 == "compressed_page_size"@); } else if j == 4 { assert(ms[4].0 == "crc"@); } }
            lemma_member_at(ms, 0);
            assert forall|j: int| 1 < j < ms.len() implies (#[trigger] ms[j]).0 != ms[1].0 by { if j == 2 { assert(ms[2].0 == "uncompressed_page_size"@); } else if j == 3 { assert(ms[3].0 == "compressed_page_size"@); } else if j == 4 { assert(ms[4].0 == "crc"@); } }
            lemma_member_at(ms, 1);
            assert forall|j: int| 2 < j < ms.len() implies (#[trigger] ms[j]).0 != ms[2].0 by { if j == 3 { assert(ms[3].0 == "compressed_page_size"@); } else if j == 4 { assert(ms[4].0 == "crc"@); } }
            lemma_member_at(ms, 2);
            assert forall|j: int| 3 < j < ms.len() implies (#[trigger] ms[j]).0 != ms[3].0 by { if j == 4 { assert(ms[4].0 == "crc"@); } }
            lemma_member_at(ms, 3);
            lemma_member_at(ms, 4);
            reveal_strlit("data_page_header");
            assert forall|j: int| 0 <= j < ms.len() implies (#[trigger] ms[j]).0 != "data_page_header"@ by { if j == 0 { assert(ms[0].0 == "page_number"@); } else if j == 1 { assert(ms[1].0 == "type"@); } else if j == 2 { assert(ms[2].0 == "uncompressed_page_size"@); } else if j == 3 { assert(ms[3].0 == "compressed_page_size"@); } else if j == 4 { assert(ms[4].0 == "crc"@); } }
            lemma_member_absent(ms, "data_page_header"@);
            reveal_strlit("dictionary_page_header");
            assert forall|j: int| 0 <= j < ms.len() implies (#[trigger] ms[j]).0 != "dictionary_page_header"@ by { if j == 0 { assert(ms[0].0 == "page_number"@); } else if j == 1 { assert(ms[1].0 == "type"@); } else if j == 2 { assert(ms[2].0 == "uncompressed_page_size"@); assert("dictionary_page_header"@[0] != "uncompressed_page_size"@[0]); } else if j == 3 { assert(ms[3].0 == "compressed_page_size"@); } else if j == 4 { assert(ms[4].0 == "crc"@); } }
            lemma_member_absent(ms, "dictionary_page_header"@);
            reveal_strlit("data_page_header_v2");
            assert forall|j: int| 0 <= j < ms.len() implies (#[trigger] ms[j]).0 != "data_page_header_v2"@ by { if j == 0 { assert(ms[0].0 == "page_number"@); } else if j == 1 { assert(ms[1].0 == "type"@); } else if j == 2 { assert(ms[2].0 == "uncompressed_page_size"@); } else if j == 3 { assert(ms[3].0 == "compressed_page_size"@); } else if j == 4 { assert(ms[4].0 == "crc"@); } }
            lemma_member_absent(ms, "data_page_header_v2"@);
        },
    }
}

/// Each member of a data page header's view holds the field of the same name.
pub proof fn lemma_data_page_json_members(p: DataPageDetails)
    ensures
        json_get(data_page_json(p), "num_values"@) == Some(Json::Num(p.num_values as int)),
        json_get(data_page_json(p), "encoding"@) == Some(Json::Text(p.encoding@)),
        json_get(data_page_json(p), "definition_level_encoding"@) == Some(Json::Text(p.definition_level_encoding@)),
        json_get(data_page_json(p), "repetition_level_encoding"@) == Some(Json::Text(p.repetition_level_encoding@)),
        json_get(data_page_json(p), "statistics"@) == Some(opt_statistics_json(p.statistics)),
{
    let ms = data_page_json(p)->Object_0;
    reveal_strlit("definition_level_encoding");
    reveal_strlit("encoding");
    reveal_strlit("num_values");
    reveal_strlit("repetition_level_encoding");
    reveal_strlit("statistics");
    assert(ms[0].0 == "num_values"@);
    assert(ms[1].0 == "encoding"@);
    assert(ms[2].0 == "definition_level_encoding"@);
    assert(ms[3].0 == "repetition_level_encoding"@);
    assert(ms[4].0 == "statistics"@);
    assert forall|j: int| 0 < j < ms.len() implies (#[trigger] ms[j]).0 != ms[0].0 by { if j == 1 { assert(ms[1].0 == "encoding"@); } else if j == 2 { assert(ms[2].0 == "definition_level_encoding"@); } else if j == 3 { assert(ms[3].0 == "repetition_level_encoding"@); } else if j == 4 { assert(ms[4].0 == "statistics"@); assert("num_values"@[0] != "statistics"@[0]); } }
    lemma_member_at(ms, 0);
    assert forall|j: int| 1 < j < ms.len() implies (#[trigger] ms[j]).0 != ms[1].0 by { if j == 2 { assert(ms[2].0 == "definition_level_encoding"@); } else if j == 3 { assert(ms[3].0 == "repetition_level_encoding"@); } else if j == 4 { assert(ms[4].0 == "statistics"@); } }
    lemma_member_at(ms, 1);
    assert forall|j: int| 2 < j < ms.len() implies (#[trigger] ms[j]).0 != ms[2].0 by { if j == 3 { assert(ms[3].0 == "repetition_level_encoding"@); assert("definition_level_encoding"@[0] != "repetition_level_encoding"@[0]); } else if j == 4 { assert(ms[4].0 == "statistics"@); } }
    lemma_member_at(ms, 2);
    assert forall|j: int| 3 < j < ms.len() implies (#[trigger] ms[j]).0 != ms[3].0 by { if j == 4 { assert(ms[4].0 == "statistics"@); } }
    lemma_member_at(ms, 3);
    lemma_member_at(ms, 4);
}

/// Each member of a dictionary page header's view holds the field of the
/// same name.
pub proof fn lemma_dictionary_page_json_members(p: DictionaryPageDetails)
    ensures
        json_get(dictionary_page_json(p), "num_values"@) == Some(Json::Num(p.num_values as int)),
        json_get(dictionary_page_json(p), "encoding"@) == Some(Json::Text(p.encoding@)),
        json_get(dictionary_page_json(p), "is_sorted"@) == Some(opt_bool(p.is_sorted)),
{
    let ms = dictionary_page_json(p)->Object_0;
    reveal_strlit("encoding");
    reveal_strlit("is_sorted");
    reveal_strlit("num_values");
    assert(ms[0].0 == "num_values"@);
    assert(ms[1].0 == "encoding"@);
    assert(ms[2].0 == "is_sorted"@);
    assert forall|j: int| 0 < j < ms.len() implies (#[trigger] ms[j]).0 != ms[0].0 by { if j == 1 { assert(ms[1].0 == "encoding"@); } else if j == 2 { assert(ms[2].0 == "is_sorted"@); } }
    lemma_member_at(ms, 0);
    assert forall|j: int| 1 < j < ms.len() implies (#[trigger] ms[j]).0 != ms[1].0 by { if j == 2 { assert(ms[2].0 == "is_sorted"@); } }
    lemma_member_at(ms, 1);
    lemma_member_at(ms, 2);
}

/// Each member of a version 2 data page header's view holds the field of
/// the same name.
pub proof fn lemma_data_page_v2_json_members(p: DataPageV2Details)
    ensures
        json_get(data_page_v2_json(p), "num_values"@) == Some(Json::Num(p.num_values as int)),
        json_get(data_page_v2_json(p), "num_nulls"@) == Some(Json::Num(p.num_nulls as int)),
        json_get(data_page_v2_json(p), "num_rows"@) == Some(Json::Num(p.num_rows as int)),
        json_get(data_page_v2_json(p), "encoding"@) == Some(Json::Text(p.encoding@)),
        json_get(data_page_v2_json(p), "definition_levels_byte_length"@) == Some(Json::Num(p.definition_levels_byte_length as int)),
        json_get(data_page_v2_json(p), "repetition_levels_byte_length"@) == Some(Json::Num(p.repetition_levels_byte_length as int)),
        json_get(data_page_v2_json(p), "is_compressed"@) == Some(opt_bool(p.is_compressed)),
        json_get(data_page_v2_json(p), "statistics"@) == Some(opt_statistics_json(p.statistics)),
{
    let ms = data_page_v2_json(p)->Object_0;
    reveal_strlit("definition_levels_byte_length");
    reveal_strlit("encoding");
    reveal_strlit("is_compressed");
    reveal_strlit("num_nulls");
    reveal_strlit("num_rows");
    reveal_strlit("num_values");
    reveal_strlit("repetition_levels_byte_length");
    reveal_strlit("statistics");
    assert(ms[0].0 == "num_values"@);
    assert(ms[1].0 == "num_nulls"@);
    assert(ms[2].0 == "num_rows"@);
    assert(ms[3].0 == "encoding"@);
    assert(ms[4].0 == "definition_levels_byte_length"@);
    assert(ms[5].0 == "repetition_levels_byte_length"@);
    assert(ms[6].0 == "is_compressed"@);
    assert(ms[7].0 == "statistics"@);
    assert forall|j: int| 0 < j < ms.len() implies (#[trigger] ms[j]).0 != ms[0].0 by { if j == 1 { assert(ms[1].0 == "num_nulls"@); } else if j == 2 { assert(ms[2].0 == "num_rows"@); } else if j == 3 { assert(ms[3].0 == "encoding"@); } else if j == 4 { assert(ms[4].0 == "definition_levels_byte_length"@); } else if j == 5 { assert(ms[5].0 == "repetition_levels_byte_length"@); } else if j == 6 { assert(ms[6].0 == "is_compressed"@); } else if j == 7 { assert(ms[7].0 == "statistics"@); assert("num_values"@[0] != "statistics"@[0]); } }
    lemma_member_at(ms, 0);
    assert forall|j: int| 1 < j < ms.len() implies (#[trigger] ms[j]).0 != ms[1].0 by { if j == 2 { assert(ms[2].0 == "num_rows"@); } else if j == 3 { assert(ms[3].0 == "encoding"@); } else if j == 4 { assert(ms[4].0 == "definition_levels_byte_length"@); } else if j == 5 { assert(ms[5].0 == "repetition_levels_byte_length"@); } else if j == 6 { assert(ms[6].0 == "is_compressed"@); } else if j == 7 { assert(ms[7].0 == "statistics"@); } }
    lemma_member_at(ms, 1);
    assert forall|j: int| 2 < j < ms.len() implies (#[trigger] ms[j]).0 != ms[2].0 by { if j == 3 { assert(ms[3].0 == "encoding"@); assert("num_rows"@[0] != "encoding"@[0]); } else if j == 4 { assert(ms[4].0 == "definition_levels_byte_length"@); } else if j == 5 { assert(ms[5].0 == "repetition_levels_byte_length"@); } else if j == 6 { assert(ms[6].0 == "is_compressed"@); } else if j == 7 { assert(ms[7].0 == "statistics"@); } }
    lemma_member_at(ms, 2);
    assert forall|j: int| 3 < j < ms.len() implies (#[trigger] ms[j]).0 != ms[3].0 by { if j == 4 { assert(ms[4].0 == "definition_levels_byte_length"@); } else if j == 5 { assert(ms[5].0 == "repetition_levels_byte_length"@); } else if j == 6 { assert(ms[6].0 == "is_compressed"@); } else if j == 7 { assert(ms[7].0 == "statistics"@); } }
    lemma_member_at(ms, 3);
    assert forall|j: int| 4 < j < ms.len() implies (#[trigger] ms[j]).0 != ms[4].0 by { if j == 5 { assert(ms[5].0 == "repetition_levels_byte_length"@); assert("definition_levels_byte_length"@[0] != "repetition_levels_byte_length"@[0]); } else if j == 6 { assert(ms[6].0 == "is_compressed"@); } else if j == 7 { assert(ms[7].0 == "statistics"@); } }
    lemma_member_at(ms, 4);
    assert forall|j: int| 5 < j < ms.len() implies (#[trigger] ms[j]).0 != ms[5].0 by { if j == 6 { assert(ms[6].0 == "is_compressed"@); } else if j == 7 { assert(ms[7].0 == "statistics"@); } }
    lemma_member_at(ms, 5);
    assert forall|j: int| 6 < j < ms.len() implies (#[trigger] ms[j]).0 != ms[6].0 by { if j == 7 { assert(ms[7].0 == "statistics"@); } }
    lemma_member_at(ms, 6);
    lemma_member_at(ms, 7);
}

/// Each member of a statistics view holds the statistic of the same name:
/// maximum and minimum in hexadecimal, then the counts.
pub proof fn lemma_statistics_json_members(st: StatisticsInfo)
    ensures
        json_get(statistics_json(st), "max"@) == Some(opt_hex(st.max_value)),
        json_get(statistics_json(st), "min"@) == Some(opt_hex(st.min_value)),
        json_get(statistics_json(st), "null_count"@) == Some(opt_num(opt_i64(st.null_count))),
        json_get(statistics_json(st), "distinct_count"@) == Some(opt_num(opt_i64(st.distinct_count))),
{
    let ms = statistics_json(st)->Object_0;
    reveal_strlit("distinct_count");
    reveal_strlit("max");
    reveal_strlit("min");
    reveal_strlit("null_count");
    assert(ms[0].0 == "max"@);
    assert(ms[1].0 == "min"@);
    assert(ms[2].0 == "null_count"@);
    assert(ms[3].0 == "distinct_count"@);
    assert forall|j: int| 0 < j < ms.len() implies (#[trigger] ms[j]).0 != ms[0].0 by { if j == 1 { assert(ms[1].0 == "min"@); assert("max"@[1] != "min"@[1]); } else if j == 2 { assert(ms[2].0 == "null_count"@); } else if j == 3 { assert(ms[3].0 == "distinct_count"@); } }
    lemma_member_at(ms, 0);
    assert forall|j: int| 1 < j < ms.len() implies (#[trigger] ms[j]).0 != ms[1].0 by { if j == 2 { assert(ms[2].0 == "null_count"@); } else if j == 3 { assert(ms[3].0 == "distinct_count"@); } }
    lemma_member_at(ms, 1);
    assert forall|j: int| 2 < j < ms.len() implies (#[trigger] ms[j]).0 != ms[2].0 by { if j == 3 { assert(ms[3].0 == "distinct_count"@); } }
    lemma_member_at(ms, 2);
    lemma_member_at(ms, 3);
}

/// Each member of a column chunk's view holds the chunk's field of the same
/// name.
pub proof fn lemma_column_chunk_json_members(c: ColumnChunkFacts, m: ColumnMeta, x: ColumnMetaFacts)
    ensures
        json_get(column_chunk_json(c, m, x), "file_path"@) == Some(opt_text(opt_str(c.file_path))),
        json_get(column_chunk_json(c, m, x), "file_offset"@) == Some(Json::Num(c.file_offset as int)),
        json_get(column_chunk_json(c, m, x), "metadata"@) == Some(column_meta_json(m, x)),
{
    let ms = column_chunk_json(c, m, x)->Object_0;
    reveal_strlit("file_offset");
    reveal_strlit("file_path");
    reveal_strlit("metadata");
    assert(ms[0].0 == "file_path"@);
    assert(ms[1].0 == "file_offset"@);
    assert(ms[2].0 == "metadata"@);
    assert forall|j: int| 0 < j < ms.len() implies (#[trigger] ms[j]).0 != ms[0].0 by { if j == 1 { assert(ms[1].0 == "file_offset"@); } else if j == 2 { assert(ms[2].0 == "metadata"@); } }
    lemma_member_at(ms, 0);
    assert forall|j: int| 1 < j < ms.len() implies (#[trigger] ms[j]).0 != ms[1].0 by { if j == 2 { assert(ms[2].0 == "metadata"@); } }
    lemma_member_at(ms, 1);
    lemma_member_at(ms, 2);
}

/// Each member of a schema element's view holds the element's field of the
/// same name.
pub proof fn lemma_schema_element_json_members(e: SchemaFacts)
    ensures
        json_get(schema_element_json(e), "type"@) == Some(Json::Text(e.physical_type@)),
        json_get(schema_element_json(e), "type_length"@) == Some(opt_num(opt_i32(e.type_length))),
        json_get(schema_element_json(e), "repetition_type"@) == Some(Json::Text(e.repetition_type@)),
        json_get(schema_element_json(e), "name"@) == Some(Json::Text(e.name@)),
        json_get(schema_element_json(e), "num_children"@) == Some(opt_num(opt_i32(e.num_children))),
        json_get(schema_element_json(e), "converted_type"@) == Some(Json::Text(e.converted_type@)),
        json_get(schema_element_json(e), "scale"@) == Some(opt_num(opt_i32(e.scale))),
        json_get(schema_element_json(e), "precision"@) == Some(opt_num(opt_i32(e.precision))),
        json_get(schema_element_json(e), "field_id"@) == Some(opt_num(opt_i32(e.field_id))),
        json_get(schema_element_json(e), "logical_type"@) == Some(Json::Text(e.logical_type@)),
{
    let ms = schema_element_json(e)->Object_0;
    reveal_strlit("converted_type");
    reveal_strlit("field_id");
    reveal_strlit("logical_type");
    reveal_strlit("name");
    reveal_strlit("num_children");
    reveal_strlit("precision");
    reveal_strlit("repetition_type");
    reveal_strlit("scale");
    reveal_strlit("type");
    reveal_strlit("type_length");
    assert(ms[0].0 == "type"@);
    assert(ms[1].0 == "type_length"@);
    assert(ms[2].0 == "repetition_type"@);
    assert(ms[3].0 == "name"@);
    assert(ms[4].0 == "num_children"@);
    assert(ms[5].0 == "converted_type"@);
    assert(ms[6].0 == "scale"@);
    assert(ms[7].0 == "precision"@);
    assert(ms[8].0 == "field_id"@);
    assert(ms[9].0 == "logical_type"@);
    assert forall|j: int| 0 < j < ms.len() implies (#[trigger] ms[j]).0 != ms[0].0 by { if j == 1 { assert(ms[1].0 == "type_length"@); } else if j == 2 { assert(ms[2].0 == "repetition_type"@); } else if j == 3 { assert(ms[3].0 == "name"@); assert("type"@[0] != "name"@[0]); } else if j == 4 { assert(ms[4].0 == "num_children"@); } else if j == 5 { assert(ms[5].0 == "converted_type"@); } else if j == 6 { assert(ms[6].0 == "scale"@); } else if j == 7 { assert(ms[7].0 == "precision"@); } else if j == 8 { assert(ms[8].0 == "field_id"@); } else if j == 9 { assert(ms[9].0 == "logical_type"@); } }
    lemma_member_at(ms, 0);
    assert forall|j: int| 1 < j < ms.len() implies (#[trigger] ms[j]).0 != ms[1].0 by { if j == 2 { assert(ms[2].0 == "repetition_type"@); } else if j == 3 { assert(ms[3].0 == "name"@); } else if j == 4 { assert(ms[4].0 == "num_children"@); } else if j == 5 { assert(ms[5].0 == "converted_type"@); } else if j == 6 { assert(ms[6].0 == "scale"@); } else if j == 7 { assert(ms[7].0 == "precision"@); } else if j == 8 { assert(ms[8].0 == "field_id"@); } else if j == 9 { assert(ms[9].0 == "logical_type"@); } }
    lemma_member_at(ms, 1);
    assert forall|j: int| 2 < j < ms.len() implies (#[trigger] ms[j]).0 != ms[2].0 by { if j == 3 { assert(ms[3].0 == "name"@); } else if j == 4 { assert(ms[4].0 == "num_children"@); } else if j == 5 { assert(ms[5].0 == "converted_type"@); } else if j == 6 { assert(ms[6].0 == "scale"@); } else if j == 7 { assert(ms[7].0 == "precision"@); } else if j == 8 { assert(ms[8].0 == "field_id"@); } else if j == 9 { assert(ms[9].0 == "logical_type"@); } }
    lemma_member_at(ms, 2);
    assert forall|j: int| 3 < j < ms.len() implies (#[trigger] ms[j]).0 != ms[3].0 by { if j == 4 { assert(ms[4].0 == "num_children"@); } else if j == 5 { assert(ms[5].0 == "converted_type"@); } else if j == 6 { assert(ms[6].0 == "scale"@); } else if j == 7 { assert(ms[7].0 == "precision"@); } else if j == 8 { assert(ms[8].0 == "field_id"@); } else if j == 9 { assert(ms[9].0 == "logical_type"@); } }
    lemma_member_at(ms, 3);
    assert forall|j: int| 4 < j < ms.len() implies (#[trigger] ms[j]).0 != ms[4].0 by { if j == 5 { assert(ms[5].0 == "converted_type"@); } else if j == 6 { assert(ms[6].0 == "scale"@); } else if j == 7 { assert(ms[7].0 == "precision"@); } else if j == 8 { assert(ms[8].0 == "field_id"@); } else if j == 9 { assert(ms[9].0 == "logical_type"@); assert("num_children"@[0] != "logical_type"@[0]); } }
    lemma_member_at(ms, 4);
    assert forall|j: int| 5 < j < ms.len() implies (#[trigger] ms[j]).0 != ms[5].0 by { if j == 6 { assert(ms[6].0 == "scale"@); } else if j == 7 { assert(ms[7].0 == "precision"@); } else if j == 8 { assert(ms[8].0 == "field_id"@); } else if j == 9 { assert(ms[9].0 == "logical_type"@); } }
    lemma_member_at(ms, 5);
    assert forall|j: int| 6 < j < ms.len() implies (#[trigger] ms[j]).0 != ms[6].0 by { if j == 7 { assert(ms[7].0 == "precision"@); } else if j == 8 { assert(ms[8].0 == "field_id"@); } else if j == 9 { assert(ms[9].0 == "logical_type"@); } }
    lemma_member_at(ms, 6);
    assert forall|j: int| 7 < j < ms.len() implies (#[trigger] ms[j]).0 != ms[7].0 by { if j == 8 { assert(ms[8].0 == "field_id"@); } else if j == 9 { assert(ms[9].0 == "logical_type"@); } }
    lemma_member_at(ms, 7);
    assert forall|j: int| 8 < j < ms.len() implies (#[trigger] ms[j]).0 != ms[8].0 by { if j == 9 { assert(ms[9].0 == "logical_type"@); } }
    lemma_member_at(ms, 8);
    lemma_member_at(ms, 9);
}

/// Column `j` of the view of row group `index`.
pub open spec fn row_group_column_json(s: FileSummary, index: int, j: int) -> Json {
    json_item(json_get(row_group_json(s, index), "columns"@).unwrap(), j).unwrap()
}

/// What the view of column `j` of row group `index` shows: the chunk's
/// location and the type, codec, sizes, counts and offsets of its own
/// metadata.
pub open spec fn column_view_shows(s: FileSummary, index: int, j: int) -> bool {
    let c = row_group_column_json(s, index, j);
    let m = s.row_groups@[index]@[j].meta_data->0;
    let x = s.column_meta_facts@[index]@[j]->0;
    let meta = json_get(c, "metadata"@).unwrap();
    &&& json_get(c, "file_offset"@) == Some(
        Json::Num(s.facts.row_groups@[index].columns@[j].file_offset as int),
    )
    &&& json_get(c, "file_path"@) == Some(
        opt_text(opt_str(s.facts.row_groups@[index].columns@[j].file_path)),
    )
    &&& json_get(meta, "num_values"@) == Some(Json::Num(m.num_values as int))
    &&& json_get(meta, "total_uncompressed_size"@) == Some(Json::Num(x.total_uncompressed_size as int))
    &&& json_get(meta, "total_compressed_size"@) == Some(Json::Num(x.total_compressed_size as int))
    &&& json_get(meta, "data_page_offset"@) == Some(Json::Num(m.data_page_offset as int))
    &&& json_get(meta, "dictionary_page_offset"@) == Some(opt_num(opt_i64(m.dictionary_page_offset)))
    &&& json_get(meta, "index_page_offset"@) == Some(opt_num(opt_i64(x.index_page_offset)))
    &&& json_get(meta, "type"@) == Some(Json::Text(m.physical_type.spec_name()))
    &&& json_get(meta, "codec"@) == Some(Json::Text(m.codec.spec_name()))
    &&& json_get(meta, "encodings"@) == Some(text_array(x.encodings@))
    &&& json_get(meta, "path_in_schema"@) == Some(text_array(m.path_in_schema@))
}

/// Each member of a row group's view holds the row group's field of the
/// same name, and its columns are its column chunks in order, each showing
/// the chunk's own fields.
pub proof fn lemma_row_group_json_members(s: FileSummary, index: int)
    ensures
        json_get(row_group_json(s, index), "row_group_index"@) == Some(Json::Num(index)),
        json_get(row_group_json(s, index), "num_rows"@) == Some(Json::Num(s.facts.row_groups@[index].num_rows as int)),
        json_get(row_group_json(s, index), "total_byte_size"@) == Some(Json::Num(s.facts.row_groups@[index].total_byte_size as int)),
        json_get(row_group_json(s, index), "num_columns"@) == Some(Json::Num(s.row_groups@[index]@.len() as int)),
        json_get(row_group_json(s, index), "columns"@) matches Some(Json::Array(cols)) && cols.len()
            == s.row_groups@[index]@.len(),
        forall|j: int|
            0 <= j < s.row_groups@[index]@.len() ==> #[trigger] column_view_shows(s, index, j),
{
    let ms = row_group_json(s, index)->Object_0;
    reveal_strlit("columns");
    reveal_strlit("num_columns");
    reveal_strlit("num_rows");
    reveal_strlit("row_group_index");
    reveal_strlit("total_byte_size");
    assert(ms[0].0 == "row_group_index"@);
    assert(ms[1].0 == "num_rows"@);
    assert(ms[2].0 == "total_byte_size"@);
    assert(ms[3].0 == "num_columns"@);
    assert(ms[4].0 == "columns"@);
    assert forall|j: int| 0 < j < ms.len() implies (#[trigger] ms[j]).0 != ms[0].0 by { if j == 1 { assert(ms[1].0 == "num_rows"@); } else if j == 2 { assert(ms[2].0 == "total_byte_size"@); assert("row_group_index"@[0] != "total_byte_size"@[0]); } else if j == 3 { assert(ms[3].0 == "num_columns"@); } else if j == 4 { assert(ms[4].0 == "columns"@); } }
    lemma_member_at(ms, 0);
    assert forall|j: int| 1 < j < ms.len() implies (#[trigger] ms[j]).0 != ms[1].0 by { if j == 2 { assert(ms[2].0 == "total_byte_size"@); } else if j == 3 { assert(ms[3].0 == "num_columns"@); } else if j == 4 { assert(ms[4].0 == "columns"@); } }
    lemma_member_at(ms, 1);
    assert forall|j: int| 2 < j < ms.len() implies (#[trigger] ms[j]).0 != ms[2].0 by { if j == 3 { assert(ms[3].0 == "num_columns"@); } else if j == 4 { assert(ms[4].0 == "columns"@); } }
    lemma_member_at(ms, 2);
    assert forall|j: int| 3 < j < ms.len() implies (#[trigger] ms[j]).0 != ms[3].0 by { if j == 4 { assert(ms[4].0 == "columns"@); } }
    lemma_member_at(ms, 3);
    lemma_member_at(ms, 4);
    assert forall|j: int| 0 <= j < s.row_groups@[index]@.len() implies #[trigger] column_view_shows(
        s,
        index,
        j,
    ) by {
        let m = s.row_groups@[index]@[j].meta_data->0;
        let x = s.column_meta_facts@[index]@[j]->0;
        let cf = s.facts.row_groups@[index].columns@[j];
        assert(row_group_column_json(s, index, j) == column_chunk_json(cf, m, x));
        lemma_column_chunk_json_members(cf, m, x);
        lemma_column_meta_json_members(m, x);
    }
}

/// Element `k` of the schema in the file metadata view.
pub open spec fn schema_item_json(s: FileSummary, k: int) -> Json {
    json_item(json_get(file_metadata_json(s), "schema"@).unwrap(), k).unwrap()
}

/// Each member of the file metadata view holds the metadata field of the
/// same name, the footer signing key in hexadecimal, and its schema lists
/// the schema elements in order, each showing the element's own fields.
pub proof fn lemma_file_metadata_json_members(s: FileSummary)
    ensures
        json_get(file_metadata_json(s), "version"@) == Some(Json::Num(s.facts.version as int)),
        json_get(file_metadata_json(s), "num_rows"@) == Some(Json::Num(s.facts.num_rows as int)),
        json_get(file_metadata_json(s), "created_by"@) == Some(opt_text(opt_str(s.facts.created_by))),
        json_get(file_metadata_json(s), "num_row_groups"@) == Some(Json::Num(s.row_groups@.len() as int)),
        json_get(file_metadata_json(s), "key_value_metadata"@) == Some(key_values_json(s.key_value_metadata)),
        json_get(file_metadata_json(s), "column_orders"@) == Some(match s.facts.column_orders {
            Some(o) => text_array(o@),
            None => Json::Null,
        }),
        json_get(file_metadata_json(s), "encryption_algorithm"@) == Some(Json::Text(s.facts.encryption_algorithm@)),
        json_get(file_metadata_json(s), "footer_signing_key_metadata"@) == Some(opt_hex(s.facts.footer_signing_key_metadata)),
        json_get(file_metadata_json(s), "schema"@) matches Some(Json::Array(items)) && items.len()
            == s.schema_facts@.len(),
        forall|k: int|
            0 <= k < s.schema_facts@.len() ==> {
                let e = s.schema_facts@[k];
                &&& json_get(#[trigger] schema_item_json(s, k), "name"@) == Some(Json::Text(e.name@))
                &&& json_get(schema_item_json(s, k), "type"@) == Some(Json::Text(e.physical_type@))
                &&& json_get(schema_item_json(s, k), "repetition_type"@) == Some(
                    Json::Text(e.repetition_type@),
                )
                &&& json_get(schema_item_json(s, k), "num_children"@) == Some(
                    opt_num(opt_i32(e.num_children)),
                )
            },
{
    let ms = file_metadata_json(s)->Object_0;
    reveal_strlit("column_orders");
    reveal_strlit("created_by");
    reveal_strlit("encryption_algorithm");
    reveal_strlit("footer_signing_key_metadata");
    reveal_strlit("key_value_metadata");
    reveal_strlit("num_row_groups");
    reveal_strlit("num_rows");
    reveal_strlit("schema");
    reveal_strlit("version");
    assert(ms[0].0 == "version"@);
    assert(ms[1].0 == "num_rows"@);
    assert(ms[2].0 == "created_by"@);
    assert(ms[3].0 == "num_row_groups"@);
    assert(ms[4].0 == "schema"@);
    assert(ms[5].0 == "key_value_metadata"@);
    assert(ms[6].0 == "column_orders"@);
    assert(ms[7].0 == "encryption_algorithm"@);
    assert(ms[8].0 == "footer_signing_key_metadata"@);
    assert forall|j: int| 0 < j < ms.len() implies (#[trigger] ms[j]).0 != ms[0].0 by { if j == 1 { assert(ms[1].0 == "num_rows"@); } else if j == 2 { assert(ms[2].0 == "created_by"@); } else if j == 3 { assert(ms[3].0 == "num_row_groups"@); } else if j == 4 { assert(ms[4].0 == "schema"@); } else if j == 5 { assert(ms[5].0 == "key_value_metadata"@); } else if j == 6 { assert(ms[6].0 == "column_orders"@); } else if j == 7 { assert(ms[7].0 == "encryption_algorithm"@); } else if j == 8 { assert(ms[8].0 == "footer_signing_key_metadata"@); } }
    lemma_member_at(ms, 0);
    assert forall|j: int| 1 < j < ms.len() implies (#[trigger] ms[j]).0 != ms[1].0 by { if j == 2 { assert(ms[2].0 == "created_by"@); } else if j == 3 { assert(ms[3].0 == "num_row_groups"@); } else if j == 4 { assert(ms[4].0 == "schema"@); } else if j == 5 { assert(ms[5].0 == "key_value_metadata"@); } else if j == 6 { assert(ms[6].0 == "column_orders"@); } else if j == 7 { assert(ms[7].0 == "encryption_algorithm"@); } else if j == 8 { assert(ms[8].0 == "footer_signing_key_metadata"@); } }
    lemma_member_at(ms, 1);
    assert forall|j: int| 2 < j < ms.len() implies (#[trigger] ms[j]).0 != ms[2].0 by { if j == 3 { assert(ms[3].0 == "num_row_groups"@); } else if j == 4 { assert(ms[4].0 == "schema"@); } else if j == 5 { assert(ms[5].0 == "key_value_metadata"@); } else if j == 6 { assert(ms[6].0 == "column_orders"@); } else if j == 7 { assert(ms[7].0 == "encryption_algorithm"@); } else if j == 8 { assert(ms[8].0 == "footer_signing_key_metadata"@); } }
    lemma_member_at(ms, 2);
    assert forall|j: int| 3 < j < ms.len() implies (#[trigger] ms[j]).0 != ms[3].0 by { if j == 4 { assert(ms[4].0 == "schema"@); } else if j == 5 { assert(ms[5].0 == "key_value_metadata"@); } else if j == 6 { assert(ms[6].0 == "column_orders"@); } else if j == 7 { assert(ms[7].0 == "encryption_algorithm"@); } else if j == 8 { assert(ms[8].0 == "footer_signing_key_metadata"@); } }
    lemma_member_at(ms, 3);
    assert forall|j: int| 4 < j < ms.len() implies (#[trigger] ms[j]).0 != ms[4].0 by { if j == 5 { assert(ms[5].0 == "key_value_metadata"@); } else if j == 6 { assert(ms[6].0 == "column_orders"@); } else if j == 7 { assert(ms[7].0 == "encryption_algorithm"@); } else if j == 8 { assert(ms[8].0 == "footer_signing_key_metadata"@); } }
    lemma_member_at(ms, 4);
    assert forall|j: int| 5 < j < ms.len() implies (#[trigger] ms[j]).0 != ms[5].0 by { if j == 6 { assert(ms[6].0 == "column_orders"@); } else if j == 7 { assert(ms[7].0 == "encryption_algorithm"@); } else if j == 8 { assert(ms[8].0 == "footer_signing_key_metadata"@); } }
    lemma_member_at(ms, 5);
    assert forall|j: int| 6 < j < ms.len() implies (#[trigger] ms[j]).0 != ms[6].0 by { if j == 7 { assert(ms[7].0 == "encryption_algorithm"@); } else if j == 8 { assert(ms[8].0 == "footer_signing_key_metadata"@); } }
    lemma_member_at(ms, 6);
    assert forall|j: int| 7 < j < ms.len() implies (#[trigger] ms[j]).0 != ms[7].0 by { if j == 8 { assert(ms[8].0 == "footer_signing_key_metadata"@); } }
    lemma_member_at(ms, 7);
    lemma_member_at(ms, 8);
    assert forall|k: int| 0 <= k < s.schema_facts@.len() implies {
        let e = s.schema_facts@[k];
        &&& json_get(#[trigger] schema_item_json(s, k), "name"@) == Some(Json::Text(e.name@))
        &&& json_get(schema_item_json(s, k), "type"@) == Some(Json::Text(e.physical_type@))
        &&& json_get(schema_item_json(s, k), "repetition_type"@) == Some(Json::Text(e.repetition_type@))
        &&& json_get(schema_item_json(s, k), "num_children"@) == Some(opt_num(opt_i32(e.num_children)))
    } by {
        assert(schema_item_json(s, k) == schema_element_json(s.schema_facts@[k]));
        lemma_schema_element_json_members(s.schema_facts@[k]);
    }
}

/// A key/value pair's view holds its key and its value (or null).
pub proof fn lemma_key_value_json_members(kv: (String, Option<String>))
    ensures
        json_get(key_value_json(kv), "key"@) == Some(Json::Text(kv.0@)),
        json_get(key_value_json(kv), "value"@) == Some(opt_text(opt_str(kv.1))),
{
    let ms = key_value_json(kv)->Object_0;
    reveal_strlit("key");
    reveal_strlit("value");
    assert(ms[0].0 == "key"@);
    assert(ms[1].0 == "value"@);
    assert forall|j: int| 0 < j < ms.len() implies (#[trigger] ms[j]).0 != ms[0].0 by { if j == 1 { assert(ms[1].0 == "value"@); } }
    lemma_member_at(ms, 0);
    lemma_member_at(ms, 1);
}

/// Each member of an Arrow field's view holds the field's property of the
/// same name.
pub proof fn lemma_arrow_field_json_members(f: ArrowFieldInfo)
    ensures
        json_get(arrow_field_json(f), "name"@) == Some(Json::Text(f.name@)),
        json_get(arrow_field_json(f), "data_type"@) == Some(Json::Text(f.data_type@)),
        json_get(arrow_field_json(f), "nullable"@) == Some(Json::Bool(f.nullable)),
        json_get(arrow_field_json(f), "metadata"@) == Some(pairs_json(f.metadata@)),
{
    let ms = arrow_field_json(f)->Object_0;
    reveal_strlit("data_type");
    reveal_strlit("metadata");
    reveal_strlit("name");
    reveal_strlit("nullable");
    assert(ms[0].0 == "name"@);
    assert(ms[1].0 == "data_type"@);
    assert(ms[2].0 == "nullable"@);
    assert(ms[3].0 == "metadata"@);
    assert forall|j: int| 0 < j < ms.len() implies (#[trigger] ms[j]).0 != ms[0].0 by { if j == 1 { assert(ms[1].0 == "data_type"@); } else if j == 2 { assert(ms[2].0 == "nullable"@); } else if j == 3 { assert(ms[3].0 == "metadata"@); } }
    lemma_member_at(ms, 0);
    assert forall|j: int| 1 < j < ms.len() implies (#[trigger] ms[j]).0 != ms[1].0 by { if j == 2 { assert(ms[2].0 == "nullable"@); } else if j == 3 { assert(ms[3].0 == "metadata"@); } }
    lemma_member_at(ms, 1);
    assert forall|j: int| 2 < j < ms.len() implies (#[trigger] ms[j]).0 != ms[2].0 by { if j == 3 { assert(ms[3].0 == "metadata"@); assert("nullable"@[0] != "metadata"@[0]); } }
    lemma_member_at(ms, 2);
    lemma_member_at(ms, 3);
}

} // verus!
