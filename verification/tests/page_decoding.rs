use parquet_demo::compact::CompactWriter;
use parquet_demo::decoders::{
    decode_page_data, decode_plain_int64, decode_rle_bit_packed_hybrid_with_consumed,
    decode_rle_dictionary, decompress_page, PageValues,
};
use parquet_demo::errors::ParquetDemoError;
use parquet_demo::format::{Encoding, PageCodec, PhysicalType};

fn is_eof(e: &ParquetDemoError) -> bool {
    matches!(e, ParquetDemoError::Io(m) if m == "failed to fill whole buffer")
}

#[test]
fn plain_int64_values() {
    let mut data = vec![1, 0, 0, 0, 0, 0, 0, 0];
    data.extend_from_slice(&[0xFF; 8]);
    data.extend_from_slice(&(-300i64).to_le_bytes());
    assert_eq!(decode_plain_int64(&data, 3).unwrap(), vec![1, -1, -300]);
    // fewer values than the data holds
    assert_eq!(decode_plain_int64(&data, 1).unwrap(), vec![1]);
    assert_eq!(decode_plain_int64(&data, 0).unwrap(), Vec::<i64>::new());
}

#[test]
fn plain_int64_past_the_end() {
    let data = vec![1, 0, 0, 0, 0, 0, 0, 0, 7];
    let e = decode_plain_int64(&data, 2).unwrap_err();
    assert!(is_eof(&e));
    assert_eq!(e.message(), "I/O error: failed to fill whole buffer");
}

#[test]
fn hybrid_rle_run() {
    // header 10 = run of 5, then the value byte
    let (vals, used) = decode_rle_bit_packed_hybrid_with_consumed(&[0x0A, 0x01, 0xEE], 1, 5).unwrap();
    assert_eq!(vals, vec![1, 1, 1, 1, 1]);
    assert_eq!(used, 2);
    // a run longer than asked for stops at the count
    let (vals, used) = decode_rle_bit_packed_hybrid_with_consumed(&[0x0A, 0x01], 1, 3).unwrap();
    assert_eq!(vals, vec![1, 1, 1]);
    assert_eq!(used, 2);
}

#[test]
fn hybrid_bit_packed_group() {
    // header 3 = one group of eight one-bit values, packed lowest bit first
    // into one byte
    let (vals, used) = decode_rle_bit_packed_hybrid_with_consumed(&[0x03, 0xFF], 1, 8).unwrap();
    assert_eq!(vals, vec![1u8; 8]);
    assert_eq!(used, 2);
    // fewer values wanted: the whole group is still taken
    let (vals, used) =
        decode_rle_bit_packed_hybrid_with_consumed(&[0x03, 0b0000_0101, 0x09], 1, 3).unwrap();
    assert_eq!(vals, vec![1, 0, 1]);
    assert_eq!(used, 2);
    // width 2: eight values in two bytes
    let (vals, used) =
        decode_rle_bit_packed_hybrid_with_consumed(&[0x03, 0b1110_0100, 0b0001_1011], 2, 8).unwrap();
    assert_eq!(vals, vec![0, 1, 2, 3, 3, 2, 1, 0]);
    assert_eq!(used, 3);
    // width 3: 1, 2, 3, 4, 5 packed into the group's three bytes
    let (vals, used) =
        decode_rle_bit_packed_hybrid_with_consumed(&[0x03, 0xD1, 0x58, 0x00], 3, 5).unwrap();
    assert_eq!(vals, vec![1, 2, 3, 4, 5]);
    assert_eq!(used, 4);
}

#[test]
fn hybrid_bit_packed_group_past_the_end() {
    // a width-3 group needs three bytes
    let e = decode_rle_bit_packed_hybrid_with_consumed(&[0x03, 0xD1, 0x58], 3, 5).unwrap_err();
    assert!(is_eof(&e));
}

#[test]
fn hybrid_ignores_what_follows() {
    let data = [0x04, 0x01, 0x03, 0b0110_1001, 0x0A, 0x01];
    let (vals, used) = decode_rle_bit_packed_hybrid_with_consumed(&data, 1, 10).unwrap();
    assert_eq!(vals, vec![1, 1, 1, 0, 0, 1, 0, 1, 1, 0]);
    assert_eq!(used, 4);
    let mut other = data[..used].to_vec();
    other.extend_from_slice(&[0xFF, 0xFF, 0xFF]);
    assert_eq!(decode_rle_bit_packed_hybrid_with_consumed(&other, 1, 10).unwrap(), (vals, used));
}

#[test]
fn hybrid_width_zero_reads_no_value_bytes() {
    let (vals, used) = decode_rle_bit_packed_hybrid_with_consumed(&[0x06], 0, 3).unwrap();
    assert_eq!(vals, vec![0, 0, 0]);
    assert_eq!(used, 1);
}

#[test]
fn hybrid_runs_in_sequence() {
    // run of 2 zeros, then run of 3 ones
    let (vals, used) =
        decode_rle_bit_packed_hybrid_with_consumed(&[0x04, 0x00, 0x06, 0x01], 1, 5).unwrap();
    assert_eq!(vals, vec![0, 0, 1, 1, 1]);
    assert_eq!(used, 4);
}

#[test]
fn hybrid_nothing_asked() {
    let (vals, used) = decode_rle_bit_packed_hybrid_with_consumed(&[], 1, 0).unwrap();
    assert!(vals.is_empty());
    assert_eq!(used, 0);
}

#[test]
fn hybrid_past_the_end() {
    assert!(is_eof(&decode_rle_bit_packed_hybrid_with_consumed(&[0x0A], 1, 2).unwrap_err()));
    assert!(is_eof(&decode_rle_bit_packed_hybrid_with_consumed(&[], 1, 1).unwrap_err()));
}

#[test]
fn hybrid_varint_header_from_the_writer() {
    // a run header written by the compact writer is read back by the decoder:
    // 260 = run of 130
    let mut cw = CompactWriter::new(Vec::new());
    cw.write_varint_u32(260);
    let mut data = cw.into_inner();
    assert_eq!(data, vec![0x84, 0x02]);
    data.push(0x01);
    let (vals, used) = decode_rle_bit_packed_hybrid_with_consumed(&data, 1, 130).unwrap();
    assert_eq!(vals.len(), 130);
    assert!(vals.iter().all(|v| *v == 1));
    assert_eq!(used, 3);
}

#[test]
fn dictionary_rle_run() {
    assert_eq!(decode_rle_dictionary(&[0x06, 0x02], 3, 2).unwrap(), vec![2, 2, 2]);
    // the value is masked to the bit width
    assert_eq!(decode_rle_dictionary(&[0x04, 0xFF], 2, 3).unwrap(), vec![7, 7]);
    // width 0: no value byte, every index is 0
    assert_eq!(decode_rle_dictionary(&[0x06], 3, 0).unwrap(), vec![0, 0, 0]);
}

#[test]
fn dictionary_bit_packed_group() {
    // 1, 2, 3, 4, 5 packed at 3 bits each, lowest bits first
    assert_eq!(
        decode_rle_dictionary(&[0x03, 0xD1, 0x58], 5, 3).unwrap(),
        vec![1, 2, 3, 4, 5]
    );
    // width 1: eight indices in one byte
    assert_eq!(
        decode_rle_dictionary(&[0x03, 0b1010_0101], 8, 1).unwrap(),
        vec![1, 0, 1, 0, 0, 1, 0, 1]
    );
}

#[test]
fn dictionary_stops_where_no_header_follows() {
    assert_eq!(decode_rle_dictionary(&[], 3, 2).unwrap(), Vec::<u32>::new());
    assert_eq!(decode_rle_dictionary(&[0x04, 0x07], 5, 3).unwrap(), vec![7, 7]);
}

#[test]
fn dictionary_never_exceeds_the_count() {
    let vals = decode_rle_dictionary(&[0x14, 0x01], 4, 1).unwrap();
    assert_eq!(vals, vec![1, 1, 1, 1]);
}

#[test]
fn dictionary_bit_packed_past_the_end() {
    let e = decode_rle_dictionary(&[0x03, 0xD1], 5, 3).unwrap_err();
    assert!(is_eof(&e));
}

#[test]
fn dictionary_too_wide() {
    let e = decode_rle_dictionary(&[0x02, 0x01, 0x00], 1, 9).unwrap_err();
    assert!(matches!(&e, ParquetDemoError::Decode(m) if m == "Dictionary bit width > 8 not supported"));
    assert_eq!(e.message(), "Decoding error: Dictionary bit width > 8 not supported");
}

#[test]
fn page_data_plain() {
    let data = 42i64.to_le_bytes();
    match decode_page_data(&data, PhysicalType::Int64, Encoding::Plain, 1).unwrap() {
        PageValues::Int64(v) => assert_eq!(v, vec![42]),
        _ => panic!("expected plain values"),
    }
}

#[test]
fn page_data_dictionary_indices() {
    match decode_page_data(&[2, 0x06, 0x02], PhysicalType::Int64, Encoding::RleDictionary, 3).unwrap() {
        PageValues::DictionaryIndices(v) => assert_eq!(v, vec![2, 2, 2]),
        _ => panic!("expected indices"),
    }
    match decode_page_data(&[], PhysicalType::Int64, Encoding::RleDictionary, 3).unwrap() {
        PageValues::DictionaryIndices(v) => assert!(v.is_empty()),
        _ => panic!("expected indices"),
    }
}

#[test]
fn page_data_unsupported() {
    let e = decode_page_data(&[0; 4], PhysicalType::Int32, Encoding::Plain, 1).unwrap_err();
    assert!(matches!(&e, ParquetDemoError::Decode(m)
        if m == "Decoding not implemented for type Int32 with encoding Plain"));
    let e = decode_page_data(&[0; 8], PhysicalType::Int64, Encoding::DeltaBinaryPacked, 1).unwrap_err();
    assert!(matches!(&e, ParquetDemoError::Decode(m)
        if m == "Decoding not implemented for type Int64 with encoding DeltaBinaryPacked"));
}

#[test]
fn page_values_len() {
    assert_eq!(PageValues::Int64(vec![1, 2]).len(), 2);
    assert_eq!(PageValues::Dictionary(vec![]).len(), 0);
    assert_eq!(PageValues::DictionaryIndices(vec![0, 1, 2]).len(), 3);
}

#[test]
fn decompress_uncompressed_keeps_the_bytes() {
    assert_eq!(
        decompress_page(&[1, 2, 3], PageCodec::Uncompressed, 99).unwrap(),
        vec![1, 2, 3]
    );
}

#[test]
fn decompress_codecs_without_decoder() {
    let cases = [
        (PageCodec::Snappy, "Snappy decompression not implemented"),
        (PageCodec::Gzip, "Gzip decompression not implemented"),
        (PageCodec::Lzo, "LZO decompression not implemented"),
        (PageCodec::Brotli, "Brotli decompression not implemented"),
        (PageCodec::Lz4, "LZ4 decompression not implemented"),
    ];
    for (codec, msg) in cases {
        let e = decompress_page(&[1], codec, 1).unwrap_err();
        assert!(matches!(&e, ParquetDemoError::Decode(m) if m == msg));
    }
}

#[test]
fn decompress_zstd_round_trip() {
    let plain = b"hello parquet, hello zstd".to_vec();
    let compressed = zstd::encode_all(&plain[..], 3).unwrap();
    assert_ne!(compressed, plain);
    let out = decompress_page(&compressed, PageCodec::Zstd, plain.len() as i32).unwrap();
    assert_eq!(out, plain);
}

#[test]
fn decompress_zstd_size_mismatch() {
    let compressed = zstd::encode_all(&b"hello"[..], 3).unwrap();
    let e = decompress_page(&compressed, PageCodec::Zstd, 7).unwrap_err();
    assert!(matches!(&e, ParquetDemoError::Decode(m)
        if m == "Decompressed size mismatch: expected 7, got 5"));
    let e = decompress_page(&compressed, PageCodec::Zstd, -1).unwrap_err();
    assert!(matches!(&e, ParquetDemoError::Decode(m)
        if m == "Decompressed size mismatch: expected -1, got 5"));
}

#[test]
fn decompress_zstd_invalid_stream() {
    let e = decompress_page(&[1, 2, 3, 4, 5], PageCodec::Zstd, 5).unwrap_err();
    assert!(matches!(e, ParquetDemoError::Io(_)));
}

#[test]
fn dictionary_run_header_from_the_writer() {
    // 400 = run of 200; value 5 at width 3
    let mut cw = CompactWriter::new(Vec::new());
    cw.write_varint_u32(400);
    let mut data = cw.into_inner();
    assert_eq!(data, vec![0x90, 0x03]);
    data.push(5);
    let ix = decode_rle_dictionary(&data, 200, 3).unwrap();
    assert_eq!(ix.len(), 200);
    assert!(ix.iter().all(|v| *v == 5));
}
