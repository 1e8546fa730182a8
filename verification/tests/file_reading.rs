use std::sync::Arc;

use arrow_array::{ArrayRef, Int64Array, RecordBatch};
use parquet::arrow::ArrowWriter;
use parquet::basic::Compression;
use parquet::file::properties::WriterProperties;

use parquet_demo::decoders::PageValues;
use parquet_demo::display::{arrow_schema_value, map_dictionary_indices};
use parquet_demo::errors::ParquetDemoError;
use parquet_demo::format::{Encoding, FieldRepetition, PageCodec, PhysicalType};
use parquet_demo::metadata::decode_arrow_schema;
use parquet_demo::pages::{
    infer_definition_level_bit_width, read_column_pages, try_read_column_pages, PageContent,
};
use parquet_demo::reader::{read_footer_length, validate_magic, ParquetFile, SeekFrom};
use parquet_demo::summary::{ColumnChunkSummary, ColumnMeta, FileSummary, SchemaNode};

/// A Parquet file with one nullable i64 column `id` holding 1..=5.
fn ids_file(compression: Compression, dictionary: bool) -> Vec<u8> {
    let ids: ArrayRef = Arc::new(Int64Array::from(vec![1i64, 2, 3, 4, 5]));
    let batch = RecordBatch::try_from_iter_with_nullable(vec![("id", ids, true)]).unwrap();
    let props = WriterProperties::builder()
        .set_compression(compression)
        .set_dictionary_enabled(dictionary)
        .build();
    let mut out = Vec::new();
    let mut writer = ArrowWriter::try_new(&mut out, batch.schema(), Some(props)).unwrap();
    writer.write(&batch).unwrap();
    writer.close().unwrap();
    out
}

#[test]
fn magic_at_start() {
    let file = b"PAR1rest".to_vec();
    assert_eq!(validate_magic(&file, SeekFrom::Start(0), "header").unwrap(), *b"PAR1");
}

#[test]
fn magic_mismatch() {
    let file = b"XXXXrestPAR1".to_vec();
    let e = validate_magic(&file, SeekFrom::Start(0), "header").unwrap_err();
    match &e {
        ParquetDemoError::InvalidMagic { kind, expected, actual } => {
            assert_eq!(*kind, "header");
            assert_eq!(expected, b"PAR1");
            assert_eq!(actual, b"XXXX");
        }
        _ => panic!("expected a magic error"),
    }
    assert_eq!(
        e.message(),
        "Invalid Parquet header magic: expected [80, 65, 82, 49], found [88, 88, 88, 88]"
    );
}

#[test]
fn magic_from_end_and_past_the_end() {
    let file = b"abcdPAR1".to_vec();
    assert_eq!(validate_magic(&file, SeekFrom::End(-4), "footer").unwrap(), *b"PAR1");
    let e = validate_magic(&file, SeekFrom::Start(6), "header").unwrap_err();
    assert!(matches!(&e, ParquetDemoError::Io(m) if m == "failed to fill whole buffer"));
    let e = validate_magic(&file, SeekFrom::End(-9), "footer").unwrap_err();
    assert!(matches!(&e, ParquetDemoError::Io(m)
        if m == "invalid seek to a negative or overflowing position"));
}

#[test]
fn footer_length_positive() {
    let mut file = b"PAR1".to_vec();
    file.extend_from_slice(&[9, 9, 9]);
    file.extend_from_slice(&3i32.to_le_bytes());
    file.extend_from_slice(b"PAR1");
    assert_eq!(read_footer_length(&file).unwrap(), 3);
}

#[test]
fn footer_length_not_positive() {
    for n in [0i32, -5] {
        let mut file = b"PAR1".to_vec();
        file.extend_from_slice(&n.to_le_bytes());
        file.extend_from_slice(b"PAR1");
        let e = read_footer_length(&file).unwrap_err();
        assert!(matches!(e, ParquetDemoError::InvalidFooterLength(m) if m == n));
        assert_eq!(e.message(), format!("Invalid footer length: {}", n));
    }
}

#[test]
fn open_rejects_bad_files() {
    let e = ParquetFile::open("a".to_string(), b"PAR".to_vec()).err().unwrap();
    assert!(matches!(&e, ParquetDemoError::Io(m) if m == "failed to fill whole buffer"));

    let e = ParquetFile::open("b".to_string(), b"NOPExxxxxxxxPAR1".to_vec()).err().unwrap();
    assert!(matches!(e, ParquetDemoError::InvalidMagic { kind: "header", .. }));

    let e = ParquetFile::open("c".to_string(), b"PAR1xxxxxxxxNOPE".to_vec()).err().unwrap();
    assert!(matches!(e, ParquetDemoError::InvalidMagic { kind: "footer", .. }));

    // footer length larger than the file
    let mut file = b"PAR1".to_vec();
    file.extend_from_slice(&100i32.to_le_bytes());
    file.extend_from_slice(b"PAR1");
    let e = ParquetFile::open("d".to_string(), file).err().unwrap();
    assert!(matches!(&e, ParquetDemoError::Io(m)
        if m == "invalid seek to a negative or overflowing position"));

    // a footer that is no Thrift FileMetaData
    let mut file = b"PAR1".to_vec();
    file.push(0xFF);
    file.extend_from_slice(&1i32.to_le_bytes());
    file.extend_from_slice(b"PAR1");
    let e = ParquetFile::open("e".to_string(), file).err().unwrap();
    assert!(matches!(e, ParquetDemoError::Thrift(_)));
    assert!(e.message().starts_with("Thrift error: "));
}

#[test]
fn open_reads_the_footer() {
    let bytes = ids_file(Compression::UNCOMPRESSED, true);
    let mut pf = ParquetFile::open("ids.parquet".to_string(), bytes.clone()).unwrap();
    assert_eq!(pf.path(), "ids.parquet");
    assert_eq!(pf.metadata().num_rows, 5);
    assert_eq!(pf.metadata_arc().row_groups.len(), 1);
    assert_eq!(*pf.file_mut(), bytes);

    let summary = pf.summary();
    assert_eq!(summary.schema.len(), 2);
    assert_eq!(summary.schema[1].name, "id");
    assert_eq!(summary.schema[1].repetition_type, Some(FieldRepetition::Optional));
    assert_eq!(summary.row_groups.len(), 1);
    let meta = summary.row_groups[0][0].meta_data.as_ref().unwrap();
    assert_eq!(meta.physical_type, PhysicalType::Int64);
    assert_eq!(meta.codec, PageCodec::Uncompressed);
    assert_eq!(meta.num_values, 5);
    assert_eq!(meta.path_in_schema, vec!["id".to_string()]);
    assert!(meta.dictionary_page_offset.is_some());
    assert_eq!(infer_definition_level_bit_width(meta, &summary.schema), 1);
}

#[test]
fn dictionary_column_pages() {
    let bytes = ids_file(Compression::UNCOMPRESSED, true);
    let pf = ParquetFile::open("ids.parquet".to_string(), bytes.clone()).unwrap();
    let summary = pf.summary().clone();
    let chunk = &summary.row_groups[0][0];
    let data = read_column_pages(&bytes, &summary, chunk, 0).unwrap();
    assert_eq!(data.page_count, 2);
    assert_eq!(data.pages.len(), 2);
    assert_eq!(data.total_values, 5);
    assert_eq!(data.dictionary, Some(vec![1, 2, 3, 4, 5]));
    assert_eq!(data.pages[0].page_number, 0);
    assert_eq!(data.pages[1].page_number, 1);
    match &data.pages[0].content {
        PageContent::Dictionary { values } => assert_eq!(values, &vec![1, 2, 3, 4, 5]),
        _ => panic!("expected the dictionary page first"),
    }
    match &data.pages[1].content {
        PageContent::Data { encoding, values: PageValues::DictionaryIndices(ix) } => {
            assert_eq!(*encoding, Encoding::RleDictionary);
            assert_eq!(ix, &vec![0, 1, 2, 3, 4]);
            let mapped = map_dictionary_indices(ix, data.dictionary.as_ref().unwrap());
            assert_eq!(mapped, vec![1, 2, 3, 4, 5]);
        }
        _ => panic!("expected dictionary indices"),
    }
    let again = try_read_column_pages(&bytes, &summary, chunk, 0).unwrap().unwrap();
    assert_eq!(again.page_count, 2);
}

#[test]
fn plain_column_pages() {
    let bytes = ids_file(Compression::UNCOMPRESSED, false);
    let pf = ParquetFile::open("plain.parquet".to_string(), bytes.clone()).unwrap();
    let summary = pf.summary().clone();
    let data = read_column_pages(&bytes, &summary, &summary.row_groups[0][0], 0).unwrap();
    assert_eq!(data.page_count, 1);
    assert_eq!(data.total_values, 5);
    assert_eq!(data.dictionary, None);
    match &data.pages[0].content {
        PageContent::Data { encoding, values: PageValues::Int64(v) } => {
            assert_eq!(*encoding, Encoding::Plain);
            assert_eq!(v, &vec![1, 2, 3, 4, 5]);
        }
        _ => panic!("expected plain values"),
    }
}

#[test]
fn zstd_column_pages() {
    let bytes = ids_file(Compression::ZSTD(Default::default()), true);
    let pf = ParquetFile::open("zstd.parquet".to_string(), bytes.clone()).unwrap();
    let summary = pf.summary().clone();
    let meta = summary.row_groups[0][0].meta_data.as_ref().unwrap();
    assert_eq!(meta.codec, PageCodec::Zstd);
    let data = read_column_pages(&bytes, &summary, &summary.row_groups[0][0], 0).unwrap();
    assert_eq!(data.dictionary, Some(vec![1, 2, 3, 4, 5]));
    assert_eq!(data.total_values, 5);
}

#[test]
fn missing_column_metadata() {
    let summary = FileSummary {
        schema: vec![],
        row_groups: vec![],
        key_value_metadata: None,
        facts: Default::default(),
        schema_facts: vec![],
        column_meta_facts: vec![],
    };
    let chunk = ColumnChunkSummary { meta_data: None };
    let e = read_column_pages(&[], &summary, &chunk, 7).err().unwrap();
    assert!(matches!(e, ParquetDemoError::MissingColumnMeta { column_idx: 7 }));
    assert_eq!(e.message(), "Missing column metadata for column index 7");
}

#[test]
fn page_data_past_the_end_of_the_file() {
    let bytes = ids_file(Compression::UNCOMPRESSED, false);
    let pf = ParquetFile::open("p".to_string(), bytes.clone()).unwrap();
    let summary = pf.summary().clone();
    let meta = summary.row_groups[0][0].meta_data.as_ref().unwrap();
    let chunk_size = pf.metadata().row_groups[0].columns[0]
        .meta_data
        .as_ref()
        .unwrap()
        .total_compressed_size;
    // cut the file one byte before the end of the only page's data
    let cut = &bytes[..(meta.data_page_offset + chunk_size - 1) as usize];
    let e = read_column_pages(cut, &summary, &summary.row_groups[0][0], 0).err().unwrap();
    assert!(matches!(&e, ParquetDemoError::Io(m) if m == "failed to fill whole buffer"));
}

#[test]
fn definition_level_width_from_schema() {
    let meta = ColumnMeta {
        physical_type: PhysicalType::Int64,
        codec: PageCodec::Uncompressed,
        num_values: 0,
        data_page_offset: 4,
        dictionary_page_offset: None,
        path_in_schema: vec!["a".to_string(), "b".to_string()],
    };
    let node = |name: &str, r: Option<FieldRepetition>| SchemaNode {
        name: name.to_string(),
        repetition_type: r,
    };
    let required = vec![node("root", None), node("b", Some(FieldRepetition::Required))];
    assert_eq!(infer_definition_level_bit_width(&meta, &required), 0);
    let repeated = vec![node("b", Some(FieldRepetition::Repeated))];
    assert_eq!(infer_definition_level_bit_width(&meta, &repeated), 1);
    // the first field with the name decides
    let both = vec![node("b", None), node("b", Some(FieldRepetition::Optional))];
    assert_eq!(infer_definition_level_bit_width(&meta, &both), 0);
    assert_eq!(infer_definition_level_bit_width(&meta, &vec![]), 0);
    let no_path = ColumnMeta { path_in_schema: vec![], ..meta.clone() };
    assert_eq!(infer_definition_level_bit_width(&no_path, &repeated), 0);
}

#[test]
fn arrow_schema_of_a_written_file() {
    let bytes = ids_file(Compression::UNCOMPRESSED, true);
    let pf = ParquetFile::open("ids.parquet".to_string(), bytes).unwrap();
    let text = arrow_schema_value(&pf.summary().key_value_metadata).unwrap();
    let schema = decode_arrow_schema(&text).unwrap();
    assert_eq!(schema.fields.len(), 1);
    assert_eq!(schema.fields[0].name, "id");
    assert_eq!(schema.fields[0].data_type, "Int64");
    assert!(schema.fields[0].nullable);
    assert!(schema.fields[0].metadata.is_empty());
}
