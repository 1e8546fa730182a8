use parquet_demo::errors::{unexpected_eof, ParquetDemoError};
use parquet_demo::s3::{parse_s3_uri, s3_location_from_parts, S3UriError, UrlParts};

#[test]
fn s3_uri_with_key() {
    let (bucket, key) = parse_s3_uri("s3://my-bucket/path/to/file.parquet").unwrap();
    assert_eq!(bucket, "my-bucket");
    assert_eq!(key, "path/to/file.parquet");
}

#[test]
fn s3_uri_leading_slashes_of_the_key_are_dropped() {
    let (bucket, key) = parse_s3_uri("s3://b//x.parquet").unwrap();
    assert_eq!(bucket, "b");
    assert_eq!(key, "x.parquet");
}

#[test]
fn s3_uri_with_another_scheme() {
    let e = parse_s3_uri("https://example.com/data.parquet").unwrap_err();
    assert!(matches!(e, S3UriError::NotS3));
    assert_eq!(e.message(), "URI must start with s3://");
}

#[test]
fn s3_uri_without_key() {
    for uri in ["s3://bucket", "s3://bucket/", "s3://bucket///"] {
        let e = parse_s3_uri(uri).unwrap_err();
        assert!(matches!(e, S3UriError::NoKey), "{}", uri);
        assert_eq!(e.message(), "No key specified in S3 URI");
    }
}

#[test]
fn s3_uri_without_bucket() {
    let e = parse_s3_uri("s3:/just/a/path").unwrap_err();
    assert!(matches!(e, S3UriError::NoBucket));
    assert_eq!(e.message(), "No bucket specified in S3 URI");
}

#[test]
fn s3_uri_that_does_not_parse() {
    let e = parse_s3_uri("not a uri").unwrap_err();
    match &e {
        S3UriError::Parse(m) => assert_eq!(m, "relative URL without a base"),
        _ => panic!("expected a parse error"),
    }
    assert_eq!(e.message(), "Failed to parse S3 URI");
}

#[test]
fn error_messages() {
    let cases = vec![
        (ParquetDemoError::Io("disk".to_string()), "I/O error: disk"),
        (ParquetDemoError::Thrift("bad".to_string()), "Thrift error: bad"),
        (ParquetDemoError::Serde("json".to_string()), "Serde error: json"),
        (ParquetDemoError::ArrowSchema("s".to_string()), "Arrow schema error: s"),
        (
            ParquetDemoError::InvalidMagic { kind: "footer", expected: *b"PAR1", actual: [0, 1, 2, 255] },
            "Invalid Parquet footer magic: expected [80, 65, 82, 49], found [0, 1, 2, 255]",
        ),
        (ParquetDemoError::InvalidFooterLength(-2147483648), "Invalid footer length: -2147483648"),
        (ParquetDemoError::InvalidFooterLength(12), "Invalid footer length: 12"),
        (
            ParquetDemoError::MissingColumnMeta { column_idx: 0 },
            "Missing column metadata for column index 0",
        ),
        (ParquetDemoError::Decode("x".to_string()), "Decoding error: x"),
        (ParquetDemoError::Message("plain".to_string()), "plain"),
    ];
    for (e, msg) in cases {
        assert_eq!(e.message(), msg);
    }
}

#[test]
fn end_of_input_error() {
    assert_eq!(unexpected_eof().message(), "I/O error: failed to fill whole buffer");
}

#[test]
fn s3_location_of_parsed_parts() {
    let parts = UrlParts { scheme: "s3".to_string(), host: Some("b".to_string()), path: "/k/x".to_string() };
    let (bucket, key) = s3_location_from_parts(Ok(parts)).unwrap();
    assert_eq!((bucket.as_str(), key.as_str()), ("b", "k/x"));
    let parts = UrlParts { scheme: "S3".to_string(), host: Some("b".to_string()), path: "/k".to_string() };
    assert!(matches!(s3_location_from_parts(Ok(parts)), Err(S3UriError::NotS3)));
    let parts = UrlParts { scheme: "s3".to_string(), host: None, path: "/k".to_string() };
    assert!(matches!(s3_location_from_parts(Ok(parts)), Err(S3UriError::NoBucket)));
    assert!(matches!(s3_location_from_parts(Err("bad".to_string())), Err(S3UriError::Parse(m)) if m == "bad"));
}
