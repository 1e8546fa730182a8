use parquet_demo::compact::{
    write_collection_compact, write_user_compact, CompactWriter, User, UserCollection, TTYPE_BINARY,
    TTYPE_I32, TTYPE_LIST, TTYPE_STRUCT,
};

fn written(f: impl FnOnce(&mut CompactWriter)) -> Vec<u8> {
    let mut cw = CompactWriter::new(Vec::new());
    f(&mut cw);
    cw.into_inner()
}

#[test]
fn varint_u32_examples() {
    assert_eq!(written(|w| w.write_varint_u32(0)), vec![0x00]);
    assert_eq!(written(|w| w.write_varint_u32(1)), vec![0x01]);
    assert_eq!(written(|w| w.write_varint_u32(127)), vec![0x7F]);
    assert_eq!(written(|w| w.write_varint_u32(128)), vec![0x80, 0x01]);
    // 234 = 1_1101010: groups of seven bits, lowest first
    assert_eq!(written(|w| w.write_varint_u32(234)), vec![0xEA, 0x01]);
    assert_eq!(written(|w| w.write_varint_u32(300)), vec![0xAC, 0x02]);
    assert_eq!(
        written(|w| w.write_varint_u32(u32::MAX)),
        vec![0xFF, 0xFF, 0xFF, 0xFF, 0x0F]
    );
}

#[test]
fn varint_u64_examples() {
    assert_eq!(written(|w| w.write_varint_u64(0)), vec![0x00]);
    assert_eq!(written(|w| w.write_varint_u64(16384)), vec![0x80, 0x80, 0x01]);
    let max = written(|w| w.write_varint_u64(u64::MAX));
    assert_eq!(max.len(), 10);
    assert!(max[..9].iter().all(|b| *b == 0xFF));
    assert_eq!(max[9], 0x01);
}

#[test]
fn zigzag_i32_examples() {
    // zigzag maps 0, -1, 1, -2, 2 to 0, 1, 2, 3, 4
    assert_eq!(written(|w| w.write_i32(0)), vec![0x00]);
    assert_eq!(written(|w| w.write_i32(-1)), vec![0x01]);
    assert_eq!(written(|w| w.write_i32(1)), vec![0x02]);
    assert_eq!(written(|w| w.write_i32(-2)), vec![0x03]);
    assert_eq!(written(|w| w.write_i32(2)), vec![0x04]);
    assert_eq!(written(|w| w.write_i32(123)), vec![0xF6, 0x01]);
    assert_eq!(
        written(|w| w.write_i32(i32::MIN)),
        vec![0xFF, 0xFF, 0xFF, 0xFF, 0x0F]
    );
    assert_eq!(
        written(|w| w.write_i32(i32::MAX)),
        vec![0xFE, 0xFF, 0xFF, 0xFF, 0x0F]
    );
}

#[test]
fn zigzag_i64_examples() {
    assert_eq!(written(|w| w.write_i64(-2)), vec![0x03]);
    assert_eq!(written(|w| w.write_i64(100)), vec![0xC8, 0x01]);
    let min = written(|w| w.write_i64(i64::MIN));
    assert_eq!(min.len(), 10);
    assert_eq!(min[9], 0x01);
}

#[test]
fn field_header_short_and_long_forms() {
    // delta 1 from the start: one byte, delta in the high nibble
    assert_eq!(written(|w| w.write_field_header(1, TTYPE_I32)), vec![0x15]);
    // delta 15 is still the short form
    assert_eq!(written(|w| w.write_field_header(15, TTYPE_BINARY)), vec![0xF8]);
    // delta 16: the type byte, then the zigzag varint of the id
    assert_eq!(
        written(|w| w.write_field_header(16, TTYPE_BINARY)),
        vec![0x08, 0x20]
    );
    // a field id below the previous one takes the long form as well
    assert_eq!(
        written(|w| {
            w.write_field_header(5, TTYPE_I32);
            w.write_field_header(3, TTYPE_I32);
        }),
        vec![0x55, 0x05, 0x06]
    );
    // the type keeps its low nibble only
    assert_eq!(written(|w| w.write_field_header(2, 0xF5)), vec![0x25]);
}

#[test]
fn list_header_forms() {
    assert_eq!(written(|w| w.write_list_header(TTYPE_BINARY, 0)), vec![0x08]);
    assert_eq!(written(|w| w.write_list_header(TTYPE_BINARY, 3)), vec![0x38]);
    assert_eq!(written(|w| w.write_list_header(TTYPE_BINARY, 14)), vec![0xE8]);
    assert_eq!(
        written(|w| w.write_list_header(TTYPE_STRUCT, 15)),
        vec![0xFC, 0x0F]
    );
    assert_eq!(
        written(|w| w.write_list_header(TTYPE_LIST, 200)),
        vec![0xF9, 0xC8, 0x01]
    );
}

#[test]
fn string_and_stop() {
    assert_eq!(written(|w| w.write_string("")), vec![0x00]);
    assert_eq!(written(|w| w.write_string("hi")), vec![0x02, b'h', b'i']);
    // the length counts UTF-8 bytes
    assert_eq!(
        written(|w| w.write_string("é")),
        vec![0x02, 0xC3, 0xA9]
    );
    assert_eq!(written(|w| w.write_stop()), vec![0x00]);
}

fn alice() -> User {
    User {
        id: 123,
        name: "Alice".to_string(),
        email: Some("alice@example.com".to_string()),
        tags: Some(vec!["rust".to_string(), "parquet".to_string()]),
        attributes: Some(vec![("score".to_string(), 100), ("visits".to_string(), 42)]),
    }
}

fn bob() -> User {
    User {
        id: 456,
        name: "Bob".to_string(),
        email: None,
        tags: Some(vec!["thrift".to_string()]),
        attributes: None,
    }
}

fn alice_bytes() -> Vec<u8> {
    let mut v = vec![0x15, 0xF6, 0x01, 0x18, 0x05];
    v.extend_from_slice(b"Alice");
    v.extend_from_slice(&[0x18, 0x11]);
    v.extend_from_slice(b"alice@example.com");
    v.extend_from_slice(&[0x19, 0x28, 0x04]);
    v.extend_from_slice(b"rust");
    v.push(0x07);
    v.extend_from_slice(b"parquet");
    v.extend_from_slice(&[0x1B, 0x02, 0x86, 0x05]);
    v.extend_from_slice(b"score");
    v.extend_from_slice(&[0xC8, 0x01, 0x06]);
    v.extend_from_slice(b"visits");
    v.extend_from_slice(&[0x54, 0x00]);
    v
}

#[test]
fn user_with_all_fields() {
    let bytes = written(|w| write_user_compact(w, &alice()));
    assert_eq!(bytes, alice_bytes());
}

#[test]
fn user_with_missing_fields_uses_deltas_from_last_written() {
    let bytes = written(|w| write_user_compact(w, &bob()));
    let mut expected = vec![0x15, 0x90, 0x07, 0x18, 0x03];
    expected.extend_from_slice(b"Bob");
    // tags follow the name: field delta 2
    expected.extend_from_slice(&[0x29, 0x18, 0x06]);
    expected.extend_from_slice(b"thrift");
    expected.push(0x00);
    assert_eq!(bytes, expected);
}

#[test]
fn user_struct_restores_the_last_field_id() {
    // a field header after a nested user struct is relative to the field
    // written before it
    let bytes = written(|w| {
        w.write_field_header(1, TTYPE_STRUCT);
        write_user_compact(w, &bob());
        w.write_field_header(2, TTYPE_I32);
    });
    assert_eq!(bytes[0], 0x1C);
    assert_eq!(*bytes.last().unwrap(), 0x15);
}

#[test]
fn collection_of_two_users() {
    let coll = UserCollection { users: vec![alice(), bob()] };
    let bytes = written(|w| write_collection_compact(w, &coll));
    let mut expected = vec![0x19, 0x2C];
    expected.extend(alice_bytes());
    expected.extend(written(|w| write_user_compact(w, &bob())));
    expected.push(0x00);
    assert_eq!(bytes, expected);
}

#[test]
fn empty_collection() {
    let coll = UserCollection { users: vec![] };
    assert_eq!(written(|w| write_collection_compact(w, &coll)), vec![0x19, 0x0C, 0x00]);
}

#[test]
fn writer_appends_to_existing_bytes() {
    let mut cw = CompactWriter::new(vec![0xAA]);
    cw.write_i32(1);
    assert_eq!(cw.into_inner(), vec![0xAA, 0x02]);
}

#[test]
fn read_varint_reads_back_written_varints() {
    for x in [0u32, 1, 127, 128, 234, 300, 16384, u32::MAX] {
        let mut cw = CompactWriter::new(Vec::new());
        cw.write_varint_u32(x);
        let mut bytes = cw.into_inner();
        let n = bytes.len();
        bytes.extend_from_slice(&[0xFF, 0x01, 0x02]);
        let mut pos = 0usize;
        assert_eq!(parquet_demo::decoders::read_varint(&bytes, &mut pos).unwrap().unwrap(), x);
        assert_eq!(pos, n);
    }
}
