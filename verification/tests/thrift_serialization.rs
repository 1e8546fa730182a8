use parquet_demo::compact::{write_collection_compact, write_user_compact, CompactWriter, User, UserCollection};
use parquet_demo::user_thrift::{
    collection_events, serialize_collection_compact, serialize_user_compact, try_serialize_collection_compact,
    try_serialize_user_compact, user_events, ThriftEvent, ThriftType,
};

fn hand_written(user: &User) -> Vec<u8> {
    let mut cw = CompactWriter::new(Vec::new());
    write_user_compact(&mut cw, user);
    cw.into_inner()
}

fn alice() -> User {
    User {
        id: 123,
        name: "Alice".to_string(),
        email: Some("alice@example.com".to_string()),
        tags: Some(vec!["rust".to_string(), "parquet".to_string()]),
        attributes: Some(vec![("score".to_string(), 100), ("visits".to_string(), 42)]),
    }
}

#[test]
fn thrift_and_hand_written_encoders_agree() {
    let users = vec![
        alice(),
        User { id: 456, name: "Bob".to_string(), email: None, tags: Some(vec!["thrift".to_string()]), attributes: None },
        User { id: -1, name: String::new(), email: None, tags: None, attributes: None },
        User { id: 7, name: "x".to_string(), email: None, tags: None, attributes: Some(vec![("k".to_string(), -5)]) },
    ];
    for u in &users {
        assert_eq!(serialize_user_compact(u), hand_written(u));
    }
}

#[test]
fn thrift_user_bytes() {
    let bytes = serialize_user_compact(&User {
        id: 1,
        name: "A".to_string(),
        email: None,
        tags: None,
        attributes: None,
    });
    assert_eq!(bytes, vec![0x15, 0x02, 0x18, 0x01, b'A', 0x00]);
}

#[test]
fn thrift_writes_an_empty_map_as_one_byte() {
    let u = User { id: 1, name: "A".to_string(), email: None, tags: None, attributes: Some(vec![]) };
    assert_eq!(serialize_user_compact(&u), vec![0x15, 0x02, 0x18, 0x01, b'A', 0x3B, 0x00, 0x00]);
    // the hand-written encoder writes the map's type byte all the same
    assert_eq!(hand_written(&u), vec![0x15, 0x02, 0x18, 0x01, b'A', 0x3B, 0x00, 0x86, 0x00]);
}

#[test]
fn thrift_user_too_large_for_the_channel() {
    let u = User { id: 1, name: "n".repeat(200), email: None, tags: None, attributes: None };
    assert_eq!(try_serialize_user_compact(&u), None);
    let small = alice();
    assert_eq!(try_serialize_user_compact(&small), Some(hand_written(&small)));
}

#[test]
fn serializer_events() {
    let events = user_events(&User { id: 9, name: "n".to_string(), email: None, tags: None, attributes: None });
    assert_eq!(events.len(), 9);
    assert!(matches!(events[0], ThriftEvent::StructBegin("User")));
    assert!(matches!(events[2], ThriftEvent::I32(9)));
    assert!(matches!(events[7], ThriftEvent::FieldStop));
    assert!(matches!(events[8], ThriftEvent::StructEnd));
}

fn bob() -> User {
    User { id: 456, name: "Bob".to_string(), email: None, tags: Some(vec!["thrift".to_string()]), attributes: None }
}

fn hand_written_collection(collection: &UserCollection) -> Vec<u8> {
    let mut cw = CompactWriter::new(Vec::new());
    write_collection_compact(&mut cw, collection);
    cw.into_inner()
}

#[test]
fn thrift_collection_bytes() {
    let small = User { id: 1, name: "A".to_string(), email: None, tags: None, attributes: None };
    let collection = UserCollection { users: vec![small] };
    assert_eq!(
        serialize_collection_compact(&collection),
        vec![0x19, 0x1C, 0x15, 0x02, 0x18, 0x01, b'A', 0x00, 0x00]
    );
}

#[test]
fn thrift_empty_collection_bytes() {
    let collection = UserCollection { users: vec![] };
    assert_eq!(serialize_collection_compact(&collection), vec![0x19, 0x0C, 0x00]);
}

#[test]
fn thrift_and_hand_written_collection_encoders_agree() {
    let collection = UserCollection { users: vec![alice(), bob()] };
    let thrift = try_serialize_collection_compact(&collection).expect("fits the channel");
    assert_eq!(thrift, hand_written_collection(&collection));
}

#[test]
fn thrift_collection_too_large_for_the_channel() {
    let collection = UserCollection { users: vec![alice(), alice(), bob()] };
    assert_eq!(try_serialize_collection_compact(&collection), None);
}

#[test]
fn collection_serializer_events() {
    let collection = UserCollection { users: vec![bob()] };
    let events = collection_events(&collection);
    assert!(matches!(events[0], ThriftEvent::StructBegin("USERCOLLECTION")));
    assert!(matches!(events[1], ThriftEvent::FieldBegin("users", ThriftType::List, 1)));
    assert!(matches!(events[2], ThriftEvent::ListBegin(ThriftType::Struct, 1)));
    assert!(matches!(events[3], ThriftEvent::StructBegin("User")));
    let n = events.len();
    assert!(matches!(events[n - 4], ThriftEvent::ListEnd));
    assert!(matches!(events[n - 2], ThriftEvent::FieldStop));
    assert!(matches!(events[n - 1], ThriftEvent::StructEnd));
}
