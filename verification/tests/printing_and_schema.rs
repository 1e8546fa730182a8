use base64::Engine;

use parquet_demo::display::{
    arrow_schema_value, column_path_label, map_dictionary_indices, DemoPrinter,
};
use parquet_demo::errors::ParquetDemoError;
use parquet_demo::format::{PageCodec, PhysicalType};
use parquet_demo::metadata::{
    arrow_schema_from_read, decode_arrow_schema, strip_ipc_continuation, try_decode_arrow_schema,
    ArrowSchemaInfo, IpcSchemaRead,
};
use parquet_demo::summary::ColumnMeta;

#[test]
fn printer_previews() {
    assert_eq!(DemoPrinter::default().max_preview_values(), 5);
    assert_eq!(DemoPrinter::new(2).max_preview_values(), 2);
}

#[test]
fn preview_of_many_values() {
    let lines = DemoPrinter::default().preview_i64(&[1, -2, 3, 4, 5, 6, 7]);
    assert_eq!(
        lines,
        vec![
            "      [0]: 1",
            "      [1]: -2",
            "      [2]: 3",
            "      [3]: 4",
            "      [4]: 5",
            "      ... and 2 more",
        ]
    );
}

#[test]
fn preview_of_few_values() {
    let lines = DemoPrinter::new(3).preview_i64(&[i64::MIN, i64::MAX]);
    assert_eq!(
        lines,
        vec![
            "      [0]: -9223372036854775808",
            "      [1]: 9223372036854775807",
        ]
    );
    assert!(DemoPrinter::new(3).preview_i64(&[]).is_empty());
    assert_eq!(DemoPrinter::new(0).preview_i64(&[9]), vec!["      ... and 1 more"]);
}

#[test]
fn preview_of_indices() {
    let lines = DemoPrinter::new(2).preview_u32(&[10, 20, 30]);
    assert_eq!(lines, vec!["      [0]: 10", "      [1]: 20", "      ... and 1 more"]);
    let lines = DemoPrinter::new(2).preview_u32(&[u32::MAX]);
    assert_eq!(lines, vec!["      [0]: 4294967295"]);
}

#[test]
fn dictionary_mapping() {
    assert_eq!(map_dictionary_indices(&[0, 2, 5, 1], &[10, 20, 30]), vec![10, 30, 0, 20]);
    assert_eq!(map_dictionary_indices(&[3], &[]), vec![0]);
    assert!(map_dictionary_indices(&[], &[1]).is_empty());
}

#[test]
fn column_labels() {
    let meta = ColumnMeta {
        physical_type: PhysicalType::Int64,
        codec: PageCodec::Uncompressed,
        num_values: 1,
        data_page_offset: 4,
        dictionary_page_offset: None,
        path_in_schema: vec!["a".to_string(), "b".to_string(), "c".to_string()],
    };
    assert_eq!(column_path_label(&Some(meta.clone())), "a.b.c");
    let single = ColumnMeta { path_in_schema: vec!["id".to_string()], ..meta.clone() };
    assert_eq!(column_path_label(&Some(single)), "id");
    let empty = ColumnMeta { path_in_schema: vec![], ..meta };
    assert_eq!(column_path_label(&Some(empty)), "");
    assert_eq!(column_path_label(&None), "<unknown>");
}

#[test]
fn arrow_schema_entry() {
    let kv = Some(vec![
        ("other".to_string(), Some("x".to_string())),
        ("ARROW:schema".to_string(), Some("first".to_string())),
        ("ARROW:schema".to_string(), Some("second".to_string())),
    ]);
    assert_eq!(arrow_schema_value(&kv), Some("first".to_string()));
    // the first entry with the key decides, even without a value
    let kv = Some(vec![
        ("ARROW:schema".to_string(), None),
        ("ARROW:schema".to_string(), Some("second".to_string())),
    ]);
    assert_eq!(arrow_schema_value(&kv), None);
    assert_eq!(arrow_schema_value(&Some(vec![])), None);
    assert_eq!(arrow_schema_value(&None), None);
}

#[test]
fn continuation_marker() {
    let framed = [0xFF, 0xFF, 0xFF, 0xFF, 4, 0, 0, 0, 9, 8];
    assert_eq!(strip_ipc_continuation(&framed), &[9, 8]);
    let bare = [0xFF, 0xFF, 0xFF, 0xFE, 4, 0, 0, 0, 9];
    assert_eq!(strip_ipc_continuation(&bare), &bare[..]);
    // fewer than eight bytes are kept as they are
    let short = [0xFF, 0xFF, 0xFF, 0xFF, 1, 2, 3];
    assert_eq!(strip_ipc_continuation(&short), &short[..]);
    let exact = [0xFF, 0xFF, 0xFF, 0xFF, 0, 0, 0, 0];
    assert!(strip_ipc_continuation(&exact).is_empty());
}

#[test]
fn schema_read_outcomes() {
    let e = arrow_schema_from_read(IpcSchemaRead::NoSchema).unwrap_err();
    assert!(matches!(&e, ParquetDemoError::ArrowSchema(m) if m == "IPC message lacks schema"));
    assert_eq!(e.message(), "Arrow schema error: IPC message lacks schema");
    let e = arrow_schema_from_read(IpcSchemaRead::Unreadable("bad".to_string())).unwrap_err();
    assert!(matches!(&e, ParquetDemoError::ArrowSchema(m) if m == "Arrow IPC parse failed: bad"));
    let info = ArrowSchemaInfo { fields: vec![], metadata: vec![("k".to_string(), "v".to_string())] };
    let got = arrow_schema_from_read(IpcSchemaRead::Schema(info)).unwrap();
    assert!(got.fields.is_empty());
    assert_eq!(got.metadata, vec![("k".to_string(), "v".to_string())]);
}

#[test]
fn schema_text_that_is_not_base64() {
    let e = decode_arrow_schema("not base64!").unwrap_err();
    match &e {
        ParquetDemoError::ArrowSchema(m) => assert!(m.starts_with("Base64 decode failed: ")),
        _ => panic!("expected an Arrow schema error"),
    }
    assert!(e.message().starts_with("Arrow schema error: Base64 decode failed: "));
}

#[test]
fn schema_text_that_is_no_ipc_message() {
    let text = base64::prelude::BASE64_STANDARD.encode([1u8, 2, 3]);
    let e = decode_arrow_schema(&text).unwrap_err();
    match &e {
        ParquetDemoError::ArrowSchema(m) => assert!(m.starts_with("Arrow IPC parse failed: ")),
        _ => panic!("expected an Arrow schema error"),
    }
    let r = try_decode_arrow_schema(&text).unwrap();
    assert!(r.is_err());
}

#[test]
fn schema_written_by_polars() {
    // the Arrow schema that Polars writes for a file with one i64 column `id`
    let text = "/////3cAAAAEAAAA8v///xQAAAAEAAEAAAAKAAsACAAKAAQA+P///wwAAAAIAAgAAAAEAAEAAAAEAAAA7P///zgAAAAgAAAAGAAAAAECAAAQABIABAAQABEACAAAAAwAAAAAAPT///9AAAAAAQAAAAgACQAEAAgAAgAAAGlkAA==";
    let schema = decode_arrow_schema(text).unwrap();
    assert_eq!(schema.fields.len(), 1);
    assert_eq!(schema.fields[0].name, "id");
    assert_eq!(schema.fields[0].data_type, "Int64");
    assert!(schema.fields[0].nullable);
    assert!(schema.metadata.is_empty());
    let again = try_decode_arrow_schema(text).unwrap().unwrap();
    assert_eq!(again.fields[0].name, "id");
}
