use std::sync::Arc;

use arrow_array::{ArrayRef, Int64Array, RecordBatch};
use parquet::arrow::ArrowWriter;
use parquet::basic::Compression;
use parquet::file::properties::WriterProperties;

use parquet_demo::errors::ParquetDemoError;
use parquet_demo::format::{PageCodec, PhysicalType};
use parquet_demo::json::{hex_encode, JsonValue};
use parquet_demo::metadata::{file_metadata_to_json, page_header_to_json, row_group_to_json};
use parquet_demo::pages::{
    read_column_pages, DataPageDetails, DictionaryPageDetails, PageHeaderDetails, PageHeaderSummary,
};
use parquet_demo::reader::ParquetFile;
use parquet_demo::summary::{ColumnChunkSummary, ColumnMeta, StatisticsInfo};

fn ids_file(dictionary: bool) -> Vec<u8> {
    let ids: ArrayRef = Arc::new(Int64Array::from(vec![1i64, 2, 3, 4, 5]));
    let batch = RecordBatch::try_from_iter_with_nullable(vec![("id", ids, true)]).unwrap();
    let props = WriterProperties::builder()
        .set_compression(Compression::UNCOMPRESSED)
        .set_dictionary_enabled(dictionary)
        .build();
    let mut out = Vec::new();
    let mut writer = ArrowWriter::try_new(&mut out, batch.schema(), Some(props)).unwrap();
    writer.write(&batch).unwrap();
    writer.close().unwrap();
    out
}

fn keys(j: &JsonValue) -> Vec<&str> {
    match j {
        JsonValue::Object(ms) => ms.iter().map(|(k, _)| k.as_str()).collect(),
        _ => panic!("not an object"),
    }
}

fn get<'a>(j: &'a JsonValue, key: &str) -> &'a JsonValue {
    match j {
        JsonValue::Object(ms) => &ms.iter().find(|(k, _)| k == key).expect("member").1,
        _ => panic!("not an object"),
    }
}

fn item(j: &JsonValue, i: usize) -> &JsonValue {
    match j {
        JsonValue::Array(items) => &items[i],
        _ => panic!("not an array"),
    }
}

fn text(j: &JsonValue) -> &str {
    match j {
        JsonValue::Text(s) => s.as_str(),
        _ => panic!("not a string"),
    }
}

fn number(j: &JsonValue) -> i128 {
    match j {
        JsonValue::Int(n) => *n as i128,
        JsonValue::UInt(n) => *n as i128,
        _ => panic!("not a number"),
    }
}

fn is_null(j: &JsonValue) -> bool {
    matches!(j, JsonValue::Null)
}

#[test]
fn hex_of_bytes() {
    assert_eq!(hex_encode(&vec![]), "");
    assert_eq!(hex_encode(&vec![0x00, 0xab, 0x10, 0xff]), "00ab10ff");
    assert_eq!(hex_encode(&vec![5, 0, 0, 0]), hex::encode([5u8, 0, 0, 0]));
}

#[test]
fn file_metadata_json_of_a_written_file() {
    let pf = ParquetFile::open("ids.parquet".to_string(), ids_file(true)).unwrap();
    let md = pf.metadata();
    let j = file_metadata_to_json(pf.summary());
    assert_eq!(
        keys(&j),
        vec![
            "version",
            "num_rows",
            "created_by",
            "num_row_groups",
            "schema",
            "key_value_metadata",
            "column_orders",
            "encryption_algorithm",
            "footer_signing_key_metadata",
        ]
    );
    assert_eq!(number(get(&j, "version")), md.version as i128);
    assert_eq!(number(get(&j, "num_rows")), 5);
    assert_eq!(text(get(&j, "created_by")), md.created_by.as_deref().unwrap());
    assert_eq!(number(get(&j, "num_row_groups")), 1);
    let schema = get(&j, "schema");
    let id = item(schema, 1);
    assert_eq!(text(get(id, "name")), "id");
    assert_eq!(text(get(id, "type")), "Some(Int64)");
    assert_eq!(text(get(id, "repetition_type")), "Some(Optional)");
    assert_eq!(text(get(id, "converted_type")), format!("{:?}", md.schema[1].converted_type));
    assert_eq!(text(get(id, "logical_type")), format!("{:?}", md.schema[1].logical_type));
    assert!(is_null(get(id, "type_length")));
    let root = item(schema, 0);
    assert_eq!(text(get(root, "type")), "None");
    assert_eq!(number(get(root, "num_children")), 1);
    let kv = item(get(&j, "key_value_metadata"), 0);
    assert_eq!(text(get(kv, "key")), "ARROW:schema");
    let orders = get(&j, "column_orders");
    assert_eq!(text(item(orders, 0)), format!("{:?}", md.column_orders.as_ref().unwrap()[0]));
    assert_eq!(text(get(&j, "encryption_algorithm")), "None");
    assert!(is_null(get(&j, "footer_signing_key_metadata")));
}

#[test]
fn row_group_json_of_a_written_file() {
    let pf = ParquetFile::open("ids.parquet".to_string(), ids_file(false)).unwrap();
    let j = row_group_to_json(pf.summary(), 0);
    assert_eq!(keys(&j), vec!["row_group_index", "num_rows", "total_byte_size", "num_columns", "columns"]);
    assert_eq!(number(get(&j, "row_group_index")), 0);
    assert_eq!(number(get(&j, "num_rows")), 5);
    assert_eq!(number(get(&j, "num_columns")), 1);
    let col = item(get(&j, "columns"), 0);
    assert_eq!(keys(col), vec!["file_path", "file_offset", "metadata"]);
    assert!(is_null(get(col, "file_path")));
    let meta = get(col, "metadata");
    assert_eq!(text(get(meta, "type")), "Int64");
    assert_eq!(text(get(meta, "codec")), "Uncompressed");
    assert_eq!(text(item(get(meta, "path_in_schema"), 0)), "id");
    assert_eq!(number(get(meta, "num_values")), 5);
    let md_meta = pf.metadata().row_groups[0].columns[0].meta_data.as_ref().unwrap();
    assert_eq!(text(item(get(meta, "encodings"), 0)), format!("{:?}", md_meta.encodings[0]));
    assert_eq!(number(get(meta, "total_compressed_size")), md_meta.total_compressed_size as i128);
    let stats = get(meta, "statistics");
    assert_eq!(text(get(stats, "max")), "0500000000000000");
    assert_eq!(text(get(stats, "min")), "0100000000000000");
    assert_eq!(number(get(stats, "null_count")), 0);
}

#[test]
fn page_header_json_of_written_pages() {
    let bytes = ids_file(true);
    let pf = ParquetFile::open("ids.parquet".to_string(), bytes.clone()).unwrap();
    let summary = pf.summary().clone();
    let data = read_column_pages(&bytes, &summary, &summary.row_groups[0][0], 0).unwrap();
    let first = &data.pages[0].header_json;
    assert_eq!(number(get(first, "page_number")), 0);
    assert_eq!(text(get(first, "type")), "DictionaryPage");
    let dict = get(first, "dictionary_page_header");
    assert_eq!(number(get(dict, "num_values")), 5);
    assert_eq!(text(get(dict, "encoding")), "Plain");
    let second = &data.pages[1].header_json;
    assert_eq!(number(get(second, "page_number")), 1);
    assert_eq!(text(get(second, "type")), "DataPage");
    let dp = get(second, "data_page_header");
    assert_eq!(number(get(dp, "num_values")), 5);
    assert_eq!(text(get(dp, "encoding")), "RleDictionary");
    assert_eq!(text(get(dp, "definition_level_encoding")), "Rle");
}

#[test]
fn page_header_json_members() {
    let summary = PageHeaderSummary {
        page_type: 0,
        uncompressed_page_size: 20,
        compressed_page_size: 18,
        data_page: Some((3, 0)),
        dictionary_page: None,
        data_page_v2_num_values: None,
    };
    let details = PageHeaderDetails {
        page_type: "DataPage".to_string(),
        crc: None,
        data_page: Some(DataPageDetails {
            num_values: 3,
            encoding: "Plain".to_string(),
            definition_level_encoding: "Rle".to_string(),
            repetition_level_encoding: "Rle".to_string(),
            statistics: Some(StatisticsInfo {
                max_value: Some(vec![0xff, 0x01]),
                min_value: None,
                null_count: Some(2),
                distinct_count: None,
            }),
        }),
        dictionary_page: None,
        data_page_v2: None,
    };
    let j = page_header_to_json(&summary, &details, 4);
    assert_eq!(
        keys(&j),
        vec!["page_number", "type", "uncompressed_page_size", "compressed_page_size", "crc", "data_page_header"]
    );
    assert_eq!(number(get(&j, "page_number")), 4);
    assert_eq!(number(get(&j, "compressed_page_size")), 18);
    assert!(is_null(get(&j, "crc")));
    let stats = get(get(&j, "data_page_header"), "statistics");
    assert_eq!(keys(stats), vec!["max", "min", "null_count", "distinct_count"]);
    assert_eq!(text(get(stats, "max")), "ff01");
    assert!(is_null(get(stats, "min")));
    assert_eq!(number(get(stats, "null_count")), 2);

    let dictionary_only = PageHeaderDetails {
        page_type: "DictionaryPage".to_string(),
        crc: Some(-7),
        data_page: None,
        dictionary_page: Some(DictionaryPageDetails { num_values: 2, encoding: "Plain".to_string(), is_sorted: Some(true) }),
        data_page_v2: None,
    };
    let j = page_header_to_json(&summary, &dictionary_only, 0);
    assert_eq!(number(get(&j, "crc")), -7);
    assert!(matches!(get(get(&j, "dictionary_page_header"), "is_sorted"), JsonValue::Bool(true)));
    assert_eq!(keys(&j).len(), 6);
}

#[test]
fn negative_first_page_offset_fails_the_seek() {
    let bytes = ids_file(false);
    let pf = ParquetFile::open("ids.parquet".to_string(), bytes.clone()).unwrap();
    let summary = pf.summary().clone();
    let chunk = ColumnChunkSummary {
        meta_data: Some(ColumnMeta {
            physical_type: PhysicalType::Int64,
            codec: PageCodec::Uncompressed,
            num_values: 5,
            data_page_offset: -1,
            dictionary_page_offset: None,
            path_in_schema: vec!["id".to_string()],
        }),
    };
    let e = read_column_pages(&bytes, &summary, &chunk, 0).err().unwrap();
    assert!(matches!(&e, ParquetDemoError::Io(m) if m == "invalid seek to a negative or overflowing position"));
}
