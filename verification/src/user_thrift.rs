//! The `User` struct, and the collection of users, written with the Thrift
//! library's own compact protocol into a fixed-capacity memory channel: the
//! calls that Thrift's generated serializer makes, in its order.

use vstd::prelude::*;
use thrift::protocol::{TOutputProtocol, TType};
use crate::compact::{User, UserCollection};

verus! {

/// The Thrift types of the fields and elements that users and user
/// collections are made of.
#[derive(Debug, Clone, Copy, PartialEq, Eq)]
pub enum ThriftType {
    I32,
    I64,
    Text,
    List,
    KeyMap,
    Struct,
}

/// One call on a Thrift output protocol.
pub enum ThriftWrite {
    StructBegin,
    StructEnd,
    FieldBegin { field_type: ThriftType, id: i16 },
    FieldEnd,
    FieldStop,
    I32(i32),
    I64(i64),
    Str(Seq<char>),
    ListBegin { element_type: ThriftType, size: i32 },
    ListEnd,
    MapBegin { key_type: ThriftType, value_type: ThriftType, size: i32 },
    MapEnd,
}

/// A compact output protocol writing into a memory channel of fixed
/// capacity.  The protocol and the channel share the channel's buffer, so
/// the pair is held as one value whose contents are the calls made on it.
#[verifier::external_body]
pub struct CompactSink {
    protocol: thrift::protocol::TCompactOutputProtocol<
        thrift::transport::WriteHalf<thrift::transport::TBufferChannel>,
    >,
    written: thrift::transport::ReadHalf<thrift::transport::TBufferChannel>,
}

/// The calls made on a sink so far.
pub uninterp spec fn sink_writes(sink: CompactSink) -> Seq<ThriftWrite>;

/// The capacity, in bytes, of a sink's channel.
pub uninterp spec fn sink_capacity(sink: CompactSink) -> nat;

/// What Thrift's compact protocol leaves in a memory channel of the given
/// capacity after these calls: the bytes, or the message of the first call
/// that failed (a varint or byte string that did not fit; a single byte
/// written into a full channel is dropped, without a failure).
pub uninterp spec fn thrift_compact_written(writes: Seq<ThriftWrite>, capacity: nat) -> Result<
    Seq<u8>,
    Seq<char>,
>;

/// Bytes that were written without a failure.
pub open spec fn ok_bytes(bytes: Seq<u8>) -> Result<Seq<u8>, Seq<char>> {
    Ok(bytes)
}

/// Whether none of these calls fails, in a channel of the given capacity.
pub open spec fn thrift_writes_fit(writes: Seq<ThriftWrite>, capacity: nat) -> bool {
    forall|k: int| 0 <= k <= writes.len() ==> #[trigger] thrift_compact_written(writes.take(k), capacity) is Ok
}

/// The number of structs begun and not yet ended.
pub open spec fn struct_depth(writes: Seq<ThriftWrite>) -> int
    decreases writes.len(),
{
    if writes.len() == 0 {
        0
    } else {
        struct_depth(writes.drop_last()) + match writes.last() {
            ThriftWrite::StructBegin => 1int,
            ThriftWrite::StructEnd => -1int,
            _ => 0int,
        }
    }
}

/// Whether the calls so far on a sink all succeeded.
pub open spec fn sink_ok(sink: CompactSink) -> bool {
    thrift_compact_written(sink_writes(sink), sink_capacity(sink)) is Ok
}

/// What a call on a sink did: it recorded `w`, kept the capacity, and
/// succeeded exactly when the calls so far still fit.
pub open spec fn sink_step(old_sink: CompactSink, new_sink: CompactSink, w: ThriftWrite, r: Result<(), String>) -> bool {
    &&& sink_writes(new_sink) == sink_writes(old_sink).push(w)
    &&& sink_capacity(new_sink) == sink_capacity(old_sink)
    &&& (r is Ok <==> sink_ok(new_sink))
}

/// `TBufferChannel::with_capacity(0, capacity)`, split into its halves
/// (`TIoChannel::split`, which cannot fail for this channel), with
/// `TCompactOutputProtocol::new` on the write half.  Nothing is written yet.
#[verifier::external_body]
fn new_sink(capacity: usize) -> (fresh: CompactSink)
    ensures
        sink_writes(fresh) == Seq::<ThriftWrite>::empty(),
        sink_capacity(fresh) == capacity,
        thrift_compact_written(sink_writes(fresh), sink_capacity(fresh)) == ok_bytes(Seq::empty()),
{
    let channel = thrift::transport::TBufferChannel::with_capacity(0, capacity);
    let (written, write_half) = thrift::transport::TIoChannel::split(channel).unwrap();
    CompactSink { protocol: thrift::protocol::TCompactOutputProtocol::new(write_half), written }
}

/// `TOutputProtocol::write_struct_begin` of the compact protocol (the name
/// is not written).
#[verifier::external_body]
fn sink_struct_begin(sink: &mut CompactSink, name: &str) -> (r: Result<(), String>)
    requires
        sink_ok(*old(sink)),
    ensures
        sink_step(*old(sink), *final(sink), ThriftWrite::StructBegin, r),
{
    let ident = thrift::protocol::TStructIdentifier::new(name);
    sink.protocol.write_struct_begin(&ident).map_err(|e| e.to_string())
}

/// `TOutputProtocol::write_struct_end` of the compact protocol; it panics
/// where no struct is open.
#[verifier::external_body]
fn sink_struct_end(sink: &mut CompactSink) -> (r: Result<(), String>)
    requires
        sink_ok(*old(sink)),
        struct_depth(sink_writes(*old(sink))) > 0,
    ensures
        sink_step(*old(sink), *final(sink), ThriftWrite::StructEnd, r),
{
    sink.protocol.write_struct_end().map_err(|e| e.to_string())
}

/// `TOutputProtocol::write_field_begin` of the compact protocol (the name
/// is not written).  It subtracts the last field id from `id` in 16 bits,
/// which overflows only where one of them is negative: those ids are left
/// out.
#[verifier::external_body]
fn sink_field_begin(sink: &mut CompactSink, name: &str, field_type: ThriftType, id: i16) -> (r: Result<(), String>)
    requires
        sink_ok(*old(sink)),
        id >= 0,
        field_ids_nonneg(sink_writes(*old(sink))),
    ensures
        sink_step(*old(sink), *final(sink), ThriftWrite::FieldBegin { field_type, id }, r),
{
    let t = field_type;
    let t = match t {
        ThriftType::I32 => TType::I32,
        ThriftType::I64 => TType::I64,
        ThriftType::Text => TType::String,
        ThriftType::List => TType::List,
        ThriftType::KeyMap => TType::Map,
        ThriftType::Struct => TType::Struct,
    };
    let ident = thrift::protocol::TFieldIdentifier::new(name, t, id);
    sink.protocol.write_field_begin(&ident).map_err(|e| e.to_string())
}

/// `TOutputProtocol::write_field_end` of the compact protocol.
#[verifier::external_body]
fn sink_field_end(sink: &mut CompactSink) -> (r: Result<(), String>)
    requires
        sink_ok(*old(sink)),
    ensures
        sink_step(*old(sink), *final(sink), ThriftWrite::FieldEnd, r),
{
    sink.protocol.write_field_end().map_err(|e| e.to_string())
}

/// `TOutputProtocol::write_field_stop` of the compact protocol.
#[verifier::external_body]
fn sink_field_stop(sink: &mut CompactSink) -> (r: Result<(), String>)
    requires
        sink_ok(*old(sink)),
    ensures
        sink_step(*old(sink), *final(sink), ThriftWrite::FieldStop, r),
{
    sink.protocol.write_field_stop().map_err(|e| e.to_string())
}

/// `TOutputProtocol::write_i32` of the compact protocol.
#[verifier::external_body]
fn sink_i32(sink: &mut CompactSink, v: i32) -> (r: Result<(), String>)
    requires
        sink_ok(*old(sink)),
    ensures
        sink_step(*old(sink), *final(sink), ThriftWrite::I32(v), r),
{
    sink.protocol.write_i32(v).map_err(|e| e.to_string())
}

/// `TOutputProtocol::write_i64` of the compact protocol.
#[verifier::external_body]
fn sink_i64(sink: &mut CompactSink, v: i64) -> (r: Result<(), String>)
    requires
        sink_ok(*old(sink)),
    ensures
        sink_step(*old(sink), *final(sink), ThriftWrite::I64(v), r),
{
    sink.protocol.write_i64(v).map_err(|e| e.to_string())
}

/// `TOutputProtocol::write_string` of the compact protocol.
#[verifier::external_body]
fn sink_string(sink: &mut CompactSink, s: &str) -> (r: Result<(), String>)
    requires
        sink_ok(*old(sink)),
    ensures
        sink_step(*old(sink), *final(sink), ThriftWrite::Str(s@), r),
{
    sink.protocol.write_string(s).map_err(|e| e.to_string())
}

/// `TOutputProtocol::write_list_begin` of the compact protocol.
#[verifier::external_body]
fn sink_list_begin(sink: &mut CompactSink, element_type: ThriftType, size: i32) -> (r: Result<(), String>)
    requires
        sink_ok(*old(sink)),
    ensures
        sink_step(*old(sink), *final(sink), ThriftWrite::ListBegin { element_type, size }, r),
{
    let t = element_type;
    let t = match t {
        ThriftType::I32 => TType::I32,
        ThriftType::I64 => TType::I64,
        ThriftType::Text => TType::String,
        ThriftType::List => TType::List,
        ThriftType::KeyMap => TType::Map,
        ThriftType::Struct => TType::Struct,
    };
    let ident = thrift::protocol::TListIdentifier::new(t, size);
    sink.protocol.write_list_begin(&ident).map_err(|e| e.to_string())
}

/// `TOutputProtocol::write_list_end` of the compact protocol.
#[verifier::external_body]
fn sink_list_end(sink: &mut CompactSink) -> (r: Result<(), String>)
    requires
        sink_ok(*old(sink)),
    ensures
        sink_step(*old(sink), *final(sink), ThriftWrite::ListEnd, r),
{
    sink.protocol.write_list_end().map_err(|e| e.to_string())
}

/// `TOutputProtocol::write_map_begin` of the compact protocol.
#[verifier::external_body]
fn sink_map_begin(sink: &mut CompactSink, key_type: ThriftType, value_type: ThriftType, size: i32) -> (r: Result<(), String>)
    requires
        sink_ok(*old(sink)),
    ensures
        sink_step(*old(sink), *final(sink), ThriftWrite::MapBegin { key_type, value_type, size }, r),
{
    let tt = |t: ThriftType| match t {
        ThriftType::I32 => TType::I32,
        ThriftType::I64 => TType::I64,
        ThriftType::Text => TType::String,
        ThriftType::List => TType::List,
        ThriftType::KeyMap => TType::Map,
        ThriftType::Struct => TType::Struct,
    };
    let ident = thrift::protocol::TMapIdentifier::new(tt(key_type), tt(value_type), size);
    sink.protocol.write_map_begin(&ident).map_err(|e| e.to_string())
}

/// `TOutputProtocol::write_map_end` of the compact protocol.
#[verifier::external_body]
fn sink_map_end(sink: &mut CompactSink) -> (r: Result<(), String>)
    requires
        sink_ok(*old(sink)),
    ensures
        sink_step(*old(sink), *final(sink), ThriftWrite::MapEnd, r),
{
    sink.protocol.write_map_end().map_err(|e| e.to_string())
}

/// `TBufferChannel::write_bytes`: the bytes written into the sink's channel.
#[verifier::external_body]
fn sink_bytes(sink: &CompactSink) -> (bytes: Vec<u8>)
    requires
        sink_ok(*sink),
    ensures
        thrift_compact_written(sink_writes(*sink), sink_capacity(*sink)) == ok_bytes(bytes@),
{
    sink.written.write_bytes()
}

/// A call on an output protocol, as the serializer issues it.
#[derive(Debug, Clone)]
pub enum ThriftEvent {
    StructBegin(&'static str),
    StructEnd,
    FieldBegin(&'static str, ThriftType, i16),
    FieldEnd,
    FieldStop,
    I32(i32),
    I64(i64),
    Str(String),
    ListBegin(ThriftType, i32),
    ListEnd,
    MapBegin(ThriftType, ThriftType, i32),
    MapEnd,
}

impl View for ThriftEvent {
    type V = ThriftWrite;

    open spec fn view(&self) -> ThriftWrite {
        match self {
            ThriftEvent::StructBegin(_) => ThriftWrite::StructBegin,
            ThriftEvent::StructEnd => ThriftWrite::StructEnd,
            ThriftEvent::FieldBegin(_, t, id) => ThriftWrite::FieldBegin { field_type: *t, id: *id },
            ThriftEvent::FieldEnd => ThriftWrite::FieldEnd,
            ThriftEvent::FieldStop => ThriftWrite::FieldStop,
            ThriftEvent::I32(v) => ThriftWrite::I32(*v),
            ThriftEvent::I64(v) => ThriftWrite::I64(*v),
            ThriftEvent::Str(s) => ThriftWrite::Str(s@),
            ThriftEvent::ListBegin(t, n) => ThriftWrite::ListBegin { element_type: *t, size: *n },
            ThriftEvent::ListEnd => ThriftWrite::ListEnd,
            ThriftEvent::MapBegin(k, v, n) => ThriftWrite::MapBegin {
                key_type: *k,
                value_type: *v,
                size: *n,
            },
            ThriftEvent::MapEnd => ThriftWrite::MapEnd,
        }
    }
}

/// The calls of a sequence of events.
pub open spec fn writes_of(events: Seq<ThriftEvent>) -> Seq<ThriftWrite> {
    events.map_values(|e: ThriftEvent| e@)
}

/// Issues one call on the sink.
fn sink_write(sink: &mut CompactSink, event: &ThriftEvent) -> (r: Result<(), String>)
    requires
        sink_ok(*old(sink)),
        event@ matches ThriftWrite::FieldBegin { id, .. } ==> id >= 0,
        field_ids_nonneg(sink_writes(*old(sink))),
        event@ is StructEnd ==> struct_depth(sink_writes(*old(sink))) > 0,
    ensures
        sink_step(*old(sink), *final(sink), event@, r),
{
    match event {
        ThriftEvent::StructBegin(name) => sink_struct_begin(sink, name),
        ThriftEvent::StructEnd => sink_struct_end(sink),
        ThriftEvent::FieldBegin(name, t, id) => sink_field_begin(sink, name, *t, *id),
        ThriftEvent::FieldEnd => sink_field_end(sink),
        ThriftEvent::FieldStop => sink_field_stop(sink),
        ThriftEvent::I32(v) => sink_i32(sink, *v),
        ThriftEvent::I64(v) => sink_i64(sink, *v),
        ThriftEvent::Str(s) => sink_string(sink, s.as_str()),
        ThriftEvent::ListBegin(t, n) => sink_list_begin(sink, *t, *n),
        ThriftEvent::ListEnd => sink_list_end(sink),
        ThriftEvent::MapBegin(k, v, n) => sink_map_begin(sink, *k, *v, *n),
        ThriftEvent::MapEnd => sink_map_end(sink),
    }
}

/// Whether a sequence of calls neither begins nor ends a struct, and begins
/// only fields whose ids are not negative.
pub open spec fn inner_writes(ws: Seq<ThriftWrite>) -> bool {
    forall|i: int|
        0 <= i < ws.len() ==> !(#[trigger] ws[i] is StructBegin) && !(ws[i] is StructEnd) && (
        ws[i] matches ThriftWrite::FieldBegin { id, .. } ==> id >= 0)
}

/// Whether every field begun has an id that is not negative.
pub open spec fn field_ids_nonneg(ws: Seq<ThriftWrite>) -> bool {
    forall|i: int| 0 <= i < ws.len() ==> (#[trigger] ws[i] matches ThriftWrite::FieldBegin { id, .. } ==> id >= 0)
}

/// Whether every struct end closes a struct that is open.
pub open spec fn ends_matched(ws: Seq<ThriftWrite>) -> bool {
    forall|i: int| 0 <= i < ws.len() && #[trigger] ws[i] is StructEnd ==> struct_depth(ws.take(i)) > 0
}

/// The calls that write a list of strings' elements.
pub open spec fn string_writes(ss: Seq<String>) -> Seq<ThriftWrite> {
    ss.map_values(|s: String| ThriftWrite::Str(s@))
}

/// The calls that write a map's entries: each key, then its value.
pub open spec fn entry_writes(es: Seq<(String, i64)>) -> Seq<ThriftWrite>
    decreases es.len(),
{
    if es.len() == 0 {
        Seq::empty()
    } else {
        entry_writes(es.drop_last()) + seq![
            ThriftWrite::Str(es.last().0@),
            ThriftWrite::I64(es.last().1),
        ]
    }
}

/// The calls that write the `id` (1) and `name` (2) fields.
pub open spec fn head_writes(u: User) -> Seq<ThriftWrite> {
    seq![
        ThriftWrite::FieldBegin { field_type: ThriftType::I32, id: 1 },
        ThriftWrite::I32(u.id),
        ThriftWrite::FieldEnd,
        ThriftWrite::FieldBegin { field_type: ThriftType::Text, id: 2 },
        ThriftWrite::Str(u.name@),
        ThriftWrite::FieldEnd,
    ]
}

/// The calls that write the `email` field (3), when present.
pub open spec fn email_writes(u: User) -> Seq<ThriftWrite> {
    match u.email {
        Some(e) => seq![
            ThriftWrite::FieldBegin { field_type: ThriftType::Text, id: 3 },
            ThriftWrite::Str(e@),
            ThriftWrite::FieldEnd,
        ],
        None => Seq::empty(),
    }
}

/// The calls that write the `tags` field (4, a list of strings), when
/// present.
pub open spec fn tags_writes(u: User) -> Seq<ThriftWrite> {
    match u.tags {
        Some(t) => seq![
            ThriftWrite::FieldBegin { field_type: ThriftType::List, id: 4 },
            ThriftWrite::ListBegin { element_type: ThriftType::Text, size: t.len() as i32 },
        ] + string_writes(t@) + seq![ThriftWrite::ListEnd, ThriftWrite::FieldEnd],
        None => Seq::empty(),
    }
}

/// The calls that write the `attributes` field (5, a map from strings to
/// i64), when present.
pub open spec fn attributes_writes(u: User) -> Seq<ThriftWrite> {
    match u.attributes {
        Some(a) => seq![
            ThriftWrite::FieldBegin { field_type: ThriftType::KeyMap, id: 5 },
            ThriftWrite::MapBegin {
                key_type: ThriftType::Text,
                value_type: ThriftType::I64,
                size: a.len() as i32,
            },
        ] + entry_writes(a@) + seq![ThriftWrite::MapEnd, ThriftWrite::FieldEnd],
        None => Seq::empty(),
    }
}

/// The calls that write the fields of a `User`, as Thrift's generated
/// serializer makes them: `id` and `name`, then `email`, `tags` and
/// `attributes` where present, then the stop field.
pub open spec fn user_field_writes(u: User) -> Seq<ThriftWrite> {
    head_writes(u) + email_writes(u) + tags_writes(u) + attributes_writes(u) + seq![
        ThriftWrite::FieldStop,
    ]
}

/// The calls that write a `User` struct.
pub open spec fn user_writes(u: User) -> Seq<ThriftWrite> {
    seq![ThriftWrite::StructBegin] + user_field_writes(u) + seq![ThriftWrite::StructEnd]
}

/// The calls that write a list's `User` elements, one struct each.
pub open spec fn users_writes(us: Seq<User>) -> Seq<ThriftWrite>
    decreases us.len(),
{
    if us.len() == 0 {
        Seq::empty()
    } else {
        users_writes(us.drop_last()) + user_writes(us.last())
    }
}

/// The calls that write a collection of users: one struct whose field 1 is
/// the list of users, then the stop field.
pub open spec fn collection_writes(c: UserCollection) -> Seq<ThriftWrite> {
    seq![
        ThriftWrite::StructBegin,
        ThriftWrite::FieldBegin { field_type: ThriftType::List, id: 1 },
        ThriftWrite::ListBegin { element_type: ThriftType::Struct, size: c.users.len() as i32 },
    ] + users_writes(c.users@) + seq![
        ThriftWrite::ListEnd,
        ThriftWrite::FieldEnd,
        ThriftWrite::FieldStop,
        ThriftWrite::StructEnd,
    ]
}

proof fn lemma_depth_concat(a: Seq<ThriftWrite>, b: Seq<ThriftWrite>)
    ensures
        struct_depth(a + b) == struct_depth(a) + struct_depth(b),
    decreases b.len(),
{
    if b.len() == 0 {
        assert(a + b =~= a);
    } else {
        lemma_depth_concat(a, b.drop_last());
        assert((a + b).drop_last() =~= a + b.drop_last());
    }
}

proof fn lemma_depth_no_struct(ws: Seq<ThriftWrite>)
    requires
        inner_writes(ws),
    ensures
        struct_depth(ws) == 0,
    decreases ws.len(),
{
    if ws.len() > 0 {
        assert(inner_writes(ws.drop_last()));
        lemma_depth_no_struct(ws.drop_last());
        assert(!(ws[ws.len() - 1] is StructBegin));
    }
}

proof fn lemma_no_struct_concat(a: Seq<ThriftWrite>, b: Seq<ThriftWrite>)
    requires
        inner_writes(a),
        inner_writes(b),
    ensures
        inner_writes(a + b),
{
    assert forall|i: int| 0 <= i < (a + b).len() implies !(#[trigger] (a + b)[i] is StructBegin) && !((
    a + b)[i] is StructEnd) && ((a + b)[i] matches ThriftWrite::FieldBegin { id, .. } ==> id >= 0) by {
        if i < a.len() {
            assert((a + b)[i] == a[i]);
        } else {
            assert((a + b)[i] == b[i - a.len()]);
        }
    }
}

proof fn lemma_entry_writes_no_struct(es: Seq<(String, i64)>)
    ensures
        inner_writes(entry_writes(es)),
    decreases es.len(),
{
    if es.len() > 0 {
        lemma_entry_writes_no_struct(es.drop_last());
        lemma_no_struct_concat(
            entry_writes(es.drop_last()),
            seq![ThriftWrite::Str(es.last().0@), ThriftWrite::I64(es.last().1)],
        );
    }
}

proof fn lemma_user_ends_matched(u: User)
    ensures
        ends_matched(user_writes(u)),
        field_ids_nonneg(user_writes(u)),
        struct_depth(user_writes(u)) == 0,
{
    let mid = user_field_writes(u);
    let stop = seq![ThriftWrite::FieldStop];
    assert(inner_writes(head_writes(u)));
    assert(inner_writes(email_writes(u)));
    assert(inner_writes(stop));
    if let Some(t) = u.tags {
        let front = seq![
            ThriftWrite::FieldBegin { field_type: ThriftType::List, id: 4 },
            ThriftWrite::ListBegin { element_type: ThriftType::Text, size: t.len() as i32 },
        ];
        let back = seq![ThriftWrite::ListEnd, ThriftWrite::FieldEnd];
        assert(inner_writes(front));
        assert(inner_writes(back));
        assert(inner_writes(string_writes(t@)));
        lemma_no_struct_concat(front, string_writes(t@));
        lemma_no_struct_concat(front + string_writes(t@), back);
    }
    assert(inner_writes(tags_writes(u)));
    if let Some(a) = u.attributes {
        let front = seq![
            ThriftWrite::FieldBegin { field_type: ThriftType::KeyMap, id: 5 },
            ThriftWrite::MapBegin {
                key_type: ThriftType::Text,
                value_type: ThriftType::I64,
                size: a.len() as i32,
            },
        ];
        let back = seq![ThriftWrite::MapEnd, ThriftWrite::FieldEnd];
        assert(inner_writes(front));
        assert(inner_writes(back));
        lemma_entry_writes_no_struct(a@);
        lemma_no_struct_concat(front, entry_writes(a@));
        lemma_no_struct_concat(front + entry_writes(a@), back);
    }
    assert(inner_writes(attributes_writes(u)));
    lemma_no_struct_concat(head_writes(u), email_writes(u));
    lemma_no_struct_concat(head_writes(u) + email_writes(u), tags_writes(u));
    lemma_no_struct_concat(
        head_writes(u) + email_writes(u) + tags_writes(u),
        attributes_writes(u),
    );
    lemma_no_struct_concat(
        head_writes(u) + email_writes(u) + tags_writes(u) + attributes_writes(u),
        stop,
    );
    lemma_depth_no_struct(mid);
    let ws = user_writes(u);
    let opening = seq![ThriftWrite::StructBegin];
    assert(ws.take(ws.len() - 1) =~= opening + mid);
    lemma_depth_concat(opening, mid);
    assert(struct_depth(opening) == 1) by {
        assert(opening.drop_last() =~= Seq::<ThriftWrite>::empty());
        assert(struct_depth(Seq::<ThriftWrite>::empty()) == 0);
        assert(opening.last() == ThriftWrite::StructBegin);
    }
    assert forall|i: int| 0 <= i < ws.len() implies (#[trigger] ws[i] matches ThriftWrite::FieldBegin {
        id,
        ..
    } ==> id >= 0) by {
        if 0 < i < ws.len() - 1 {
            assert(ws[i] == mid[i - 1]);
        }
    }
    assert forall|i: int| 0 <= i < ws.len() && #[trigger] ws[i] is StructEnd implies struct_depth(
        ws.take(i),
    ) > 0 by {
        if i == 0 {
            assert(ws[0] == ThriftWrite::StructBegin);
        } else if i < ws.len() - 1 {
            assert(ws[i] == mid[i - 1]);
        }
    }
    let closing = seq![ThriftWrite::StructEnd];
    assert(ws =~= (opening + mid) + closing);
    lemma_depth_concat(opening + mid, closing);
    assert(struct_depth(closing) == -1) by {
        assert(closing.drop_last() =~= Seq::<ThriftWrite>::empty());
        assert(struct_depth(Seq::<ThriftWrite>::empty()) == 0);
    }
}

/// Whether every struct end in `ws` closes a struct, where `depth` structs
/// are open before the first of them.
spec fn ends_matched_from(ws: Seq<ThriftWrite>, depth: int) -> bool {
    forall|i: int| 0 <= i < ws.len() && #[trigger] ws[i] is StructEnd ==> depth + struct_depth(ws.take(i)) > 0
}

proof fn lemma_ends_concat(a: Seq<ThriftWrite>, b: Seq<ThriftWrite>, depth: int)
    requires
        ends_matched_from(a, depth),
        ends_matched_from(b, depth + struct_depth(a)),
    ensures
        ends_matched_from(a + b, depth),
{
    assert forall|i: int| 0 <= i < (a + b).len() && #[trigger] (a + b)[i] is StructEnd implies depth
        + struct_depth((a + b).take(i)) > 0 by {
        if i < a.len() {
            assert((a + b)[i] == a[i]);
            assert((a + b).take(i) =~= a.take(i));
        } else {
            let j = i - a.len();
            assert((a + b)[i] == b[j]);
            assert((a + b).take(i) =~= a + b.take(j));
            lemma_depth_concat(a, b.take(j));
        }
    }
}

proof fn lemma_ids_concat(a: Seq<ThriftWrite>, b: Seq<ThriftWrite>)
    requires
        field_ids_nonneg(a),
        field_ids_nonneg(b),
    ensures
        field_ids_nonneg(a + b),
{
    assert forall|i: int| 0 <= i < (a + b).len() implies (#[trigger] (a + b)[i] matches ThriftWrite::FieldBegin {
        id,
        ..
    } ==> id >= 0) by {
        if i < a.len() {
            assert((a + b)[i] == a[i]);
        } else {
            assert((a + b)[i] == b[i - a.len()]);
        }
    }
}

proof fn lemma_users_balanced(us: Seq<User>)
    ensures
        ends_matched_from(users_writes(us), 0),
        field_ids_nonneg(users_writes(us)),
        struct_depth(users_writes(us)) == 0,
    decreases us.len(),
{
    if us.len() == 0 {
        assert(struct_depth(Seq::<ThriftWrite>::empty()) == 0);
    } else {
        let front = users_writes(us.drop_last());
        let last = user_writes(us.last());
        lemma_users_balanced(us.drop_last());
        lemma_user_ends_matched(us.last());
        lemma_ends_concat(front, last, 0);
        lemma_ids_concat(front, last);
        lemma_depth_concat(front, last);
    }
}

proof fn lemma_collection_balanced(c: UserCollection)
    ensures
        ends_matched(collection_writes(c)),
        field_ids_nonneg(collection_writes(c)),
{
    let opening = seq![ThriftWrite::StructBegin];
    let heads = seq![
        ThriftWrite::FieldBegin { field_type: ThriftType::List, id: 1 },
        ThriftWrite::ListBegin { element_type: ThriftType::Struct, size: c.users.len() as i32 },
    ];
    let users = users_writes(c.users@);
    let tails = seq![ThriftWrite::ListEnd, ThriftWrite::FieldEnd, ThriftWrite::FieldStop];
    let closing = seq![ThriftWrite::StructEnd];
    assert(collection_writes(c) =~= opening + heads + users + tails + closing);
    assert(struct_depth(opening) == 1) by {
        assert(opening.drop_last() =~= Seq::<ThriftWrite>::empty());
        assert(struct_depth(Seq::<ThriftWrite>::empty()) == 0);
    }
    assert(inner_writes(heads));
    assert(inner_writes(tails));
    lemma_depth_no_struct(heads);
    lemma_depth_no_struct(tails);
    lemma_users_balanced(c.users@);
    lemma_depth_concat(opening, heads);
    lemma_depth_concat(opening + heads, users);
    lemma_depth_concat(opening + heads + users, tails);
    assert(ends_matched_from(opening, 0));
    assert(ends_matched_from(heads, 1));
    assert(ends_matched_from(users, 1));
    assert(ends_matched_from(tails, 1));
    assert(ends_matched_from(closing, 1)) by {
        assert(closing.take(0) =~= Seq::<ThriftWrite>::empty());
        assert(struct_depth(Seq::<ThriftWrite>::empty()) == 0);
    }
    lemma_ends_concat(opening, heads, 0);
    lemma_ends_concat(opening + heads, users, 0);
    lemma_ends_concat(opening + heads + users, tails, 0);
    lemma_ends_concat(opening + heads + users + tails, closing, 0);
    assert(field_ids_nonneg(opening));
    assert(field_ids_nonneg(heads));
    assert(field_ids_nonneg(tails));
    assert(field_ids_nonneg(closing));
    lemma_ids_concat(opening, heads);
    lemma_ids_concat(opening + heads, users);
    lemma_ids_concat(opening + heads + users, tails);
    lemma_ids_concat(opening + heads + users + tails, closing);
}

/// The events that write the string elements of a list.
fn push_string_events(events: &mut Vec<ThriftEvent>, ss: &Vec<String>)
    ensures
        writes_of(final(events)@) == writes_of(old(events)@) + string_writes(ss@),
{
    let mut i: usize = 0;
    while i < ss.len()
        invariant
            i <= ss.len(),
            writes_of(events@) == writes_of(old(events)@) + string_writes(ss@.take(i as int)),
        decreases ss.len() - i,
    {
        let ghost before = writes_of(events@);
        events.push(ThriftEvent::Str(ss[i].clone()));
        proof {
            assert(writes_of(events@) =~= before.push(ThriftWrite::Str(ss@[i as int]@)));
            assert(string_writes(ss@.take(i + 1)) =~= string_writes(ss@.take(i as int)).push(
                ThriftWrite::Str(ss@[i as int]@),
            ));
        }
        i = i + 1;
    }
    assert(ss@.take(ss.len() as int) =~= ss@);
}

/// The events that write a map's entries.
fn push_entry_events(events: &mut Vec<ThriftEvent>, es: &Vec<(String, i64)>)
    ensures
        writes_of(final(events)@) == writes_of(old(events)@) + entry_writes(es@),
{
    let mut i: usize = 0;
    while i < es.len()
        invariant
            i <= es.len(),
            writes_of(events@) == writes_of(old(events)@) + entry_writes(es@.take(i as int)),
        decreases es.len() - i,
    {
        let ghost before = writes_of(events@);
        events.push(ThriftEvent::Str(es[i].0.clone()));
        events.push(ThriftEvent::I64(es[i].1));
        proof {
            let taken = es@.take(i + 1);
            assert(taken.drop_last() =~= es@.take(i as int));
            assert(writes_of(events@) =~= before + seq![
                ThriftWrite::Str(es@[i as int].0@),
                ThriftWrite::I64(es@[i as int].1),
            ]);
        }
        i = i + 1;
    }
    assert(es@.take(es.len() as int) =~= es@);
}

/// Appends one event.
fn push_event(events: &mut Vec<ThriftEvent>, e: ThriftEvent)
    ensures
        writes_of(final(events)@) == writes_of(old(events)@).push(e@),
{
    events.push(e);
    assert(writes_of(events@) =~= writes_of(old(events)@).push(e@));
}

/// The events of the `email` field, when present.
fn push_email_events(events: &mut Vec<ThriftEvent>, user: &User)
    ensures
        writes_of(final(events)@) == writes_of(old(events)@) + email_writes(*user),
{
    if let Some(email) = &user.email {
        push_event(events, ThriftEvent::FieldBegin("email", ThriftType::Text, 3));
        push_event(events, ThriftEvent::Str(email.clone()));
        push_event(events, ThriftEvent::FieldEnd);
    }
    assert(writes_of(events@) =~= writes_of(old(events)@) + email_writes(*user));
}

/// The events of the `tags` field, when present.
fn push_tags_events(events: &mut Vec<ThriftEvent>, user: &User)
    ensures
        writes_of(final(events)@) == writes_of(old(events)@) + tags_writes(*user),
{
    if let Some(tags) = &user.tags {
        push_event(events, ThriftEvent::FieldBegin("tags", ThriftType::List, 4));
        #[verifier::truncate]
        let n = tags.len() as i32;
        push_event(events, ThriftEvent::ListBegin(ThriftType::Text, n));
        let ghost front = writes_of(events@);
        push_string_events(events, tags);
        push_event(events, ThriftEvent::ListEnd);
        push_event(events, ThriftEvent::FieldEnd);
        assert(writes_of(events@) =~= front + string_writes(tags@) + seq![
            ThriftWrite::ListEnd,
            ThriftWrite::FieldEnd,
        ]);
    }
    assert(writes_of(events@) =~= writes_of(old(events)@) + tags_writes(*user));
}

/// The events of the `attributes` field, when present.
fn push_attributes_events(events: &mut Vec<ThriftEvent>, user: &User)
    ensures
        writes_of(final(events)@) == writes_of(old(events)@) + attributes_writes(*user),
{
    if let Some(attributes) = &user.attributes {
        push_event(events, ThriftEvent::FieldBegin("attributes", ThriftType::KeyMap, 5));
        #[verifier::truncate]
        let n = attributes.len() as i32;
        push_event(events, ThriftEvent::MapBegin(ThriftType::Text, ThriftType::I64, n));
        let ghost front = writes_of(events@);
        push_entry_events(events, attributes);
        push_event(events, ThriftEvent::MapEnd);
        push_event(events, ThriftEvent::FieldEnd);
        assert(writes_of(events@) =~= front + entry_writes(attributes@) + seq![
            ThriftWrite::MapEnd,
            ThriftWrite::FieldEnd,
        ]);
    }
    assert(writes_of(events@) =~= writes_of(old(events)@) + attributes_writes(*user));
}

/// Appends the events that serialize a `User` with Thrift's output
/// protocol.
fn push_user_events(events: &mut Vec<ThriftEvent>, user: &User)
    ensures
        writes_of(final(events)@) == writes_of(old(events)@) + user_writes(*user),
{
    let ghost start = writes_of(events@);
    push_event(events, ThriftEvent::StructBegin("User"));
    push_event(events, ThriftEvent::FieldBegin("id", ThriftType::I32, 1));
    push_event(events, ThriftEvent::I32(user.id));
    push_event(events, ThriftEvent::FieldEnd);
    push_event(events, ThriftEvent::FieldBegin("name", ThriftType::Text, 2));
    push_event(events, ThriftEvent::Str(user.name.clone()));
    push_event(events, ThriftEvent::FieldEnd);
    assert(writes_of(events@) =~= start + seq![ThriftWrite::StructBegin] + head_writes(*user));
    push_email_events(events, user);
    push_tags_events(events, user);
    push_attributes_events(events, user);
    push_event(events, ThriftEvent::FieldStop);
    push_event(events, ThriftEvent::StructEnd);
    assert(writes_of(events@) =~= start + user_writes(*user));
}

/// The events that serialize a `User` with Thrift's output protocol.
pub fn user_events(user: &User) -> (events: Vec<ThriftEvent>)
    ensures
        writes_of(events@) == user_writes(*user),
{
    let mut events: Vec<ThriftEvent> = Vec::new();
    assert(writes_of(events@) =~= Seq::<ThriftWrite>::empty());
    push_user_events(&mut events, user);
    assert(Seq::<ThriftWrite>::empty() + user_writes(*user) =~= user_writes(*user));
    events
}

/// The events that serialize a collection of users: its one field (1), a
/// list of `User` structs.
pub fn collection_events(collection: &UserCollection) -> (events: Vec<ThriftEvent>)
    ensures
        writes_of(events@) == collection_writes(*collection),
{
    let mut events: Vec<ThriftEvent> = Vec::new();
    assert(writes_of(events@) =~= Seq::<ThriftWrite>::empty());
    push_event(&mut events, ThriftEvent::StructBegin("USERCOLLECTION"));
    push_event(&mut events, ThriftEvent::FieldBegin("users", ThriftType::List, 1));
    #[verifier::truncate]
    let n = collection.users.len() as i32;
    push_event(&mut events, ThriftEvent::ListBegin(ThriftType::Struct, n));
    let ghost front = writes_of(events@);
    let users = &collection.users;
    let mut i: usize = 0;
    while i < users.len()
        invariant
            i <= users.len(),
            users == collection.users,
            writes_of(events@) == front + users_writes(users@.take(i as int)),
        decreases users.len() - i,
    {
        push_user_events(&mut events, &users[i]);
        proof {
            let taken = users@.take(i + 1);
            assert(taken.drop_last() =~= users@.take(i as int));
            assert(taken.last() == users@[i as int]);
        }
        i = i + 1;
    }
    assert(users@.take(users.len() as int) =~= users@);
    push_event(&mut events, ThriftEvent::ListEnd);
    push_event(&mut events, ThriftEvent::FieldEnd);
    push_event(&mut events, ThriftEvent::FieldStop);
    push_event(&mut events, ThriftEvent::StructEnd);
    assert(writes_of(events@) =~= collection_writes(*collection));
    events
}

/// Issues the calls of `events` on a fresh sink, stopping at the first
/// that fails.
fn write_events(sink: &mut CompactSink, events: &Vec<ThriftEvent>) -> (r: Result<(), String>)
    requires
        sink_writes(*old(sink)) == Seq::<ThriftWrite>::empty(),
        sink_ok(*old(sink)),
        ends_matched(writes_of(events@)),
        field_ids_nonneg(writes_of(events@)),
    ensures
        sink_capacity(*final(sink)) == sink_capacity(*old(sink)),
        r is Ok <==> thrift_writes_fit(writes_of(events@), sink_capacity(*old(sink))),
        r is Ok ==> sink_writes(*final(sink)) == writes_of(events@),
{
    let ghost ws = writes_of(events@);
    let ghost cap = sink_capacity(*sink);
    let mut i: usize = 0;
    assert(ws.take(0) =~= Seq::<ThriftWrite>::empty());
    while i < events.len()
        invariant
            i <= events.len(),
            ws == writes_of(events@),
            ends_matched(ws),
            field_ids_nonneg(ws),
            sink_writes(*sink) == ws.take(i as int),
            sink_capacity(*sink) == cap,
            cap == sink_capacity(*old(sink)),
            sink_ok(*sink),
            forall|k: int| 0 <= k <= i ==> #[trigger] thrift_compact_written(ws.take(k), cap) is Ok,
        decreases events.len() - i,
    {
        assert(ws[i as int] == events@[i as int]@);
        assert(field_ids_nonneg(ws.take(i as int))) by {
            assert forall|k: int| 0 <= k < ws.take(i as int).len() implies (#[trigger] ws.take(
                i as int,
            )[k] matches ThriftWrite::FieldBegin { id, .. } ==> id >= 0) by {
                assert(ws.take(i as int)[k] == ws[k]);
            }
        }
        let r = sink_write(sink, &events[i]);
        assert(sink_writes(*sink) =~= ws.take(i + 1));
        if r.is_err() {
            assert(!thrift_writes_fit(ws, cap)) by {
                assert(thrift_compact_written(ws.take(i + 1), cap) is Err);
            }
            return r;
        }
        i = i + 1;
    }
    assert(ws.take(events.len() as int) =~= ws);
    Ok(())
}

/// The capacity of the channel the serializer writes into.
pub open spec fn serializer_capacity() -> nat {
    128
}

/// Serializes a `User` with Thrift's compact protocol into a 128-byte
/// memory channel.  A user whose writes do not all fit makes the
/// serializer panic: such users are left out.
pub fn serialize_user_compact(user: &User) -> (bytes: Vec<u8>)
    requires
        user.wf(),
        thrift_writes_fit(user_writes(*user), serializer_capacity()),
    ensures
        thrift_compact_written(user_writes(*user), serializer_capacity()) == ok_bytes(bytes@),
{
    let events = user_events(user);
    let mut sink = new_sink(128);
    proof {
        lemma_user_ends_matched(*user);
    }
    let r = write_events(&mut sink, &events);
    assert(writes_of(events@).take(writes_of(events@).len() as int) =~= writes_of(events@));
    sink_bytes(&sink)
}

/// Serializes a `User` as `serialize_user_compact` does, or gives `None`
/// where one of the serializer's writes would not fit.
pub fn try_serialize_user_compact(user: &User) -> (bytes: Option<Vec<u8>>)
    requires
        user.wf(),
    ensures
        bytes is None <==> !thrift_writes_fit(user_writes(*user), serializer_capacity()),
        bytes matches Some(b) ==> thrift_compact_written(user_writes(*user), serializer_capacity())
            == ok_bytes(b@),
{
    let events = user_events(user);
    let mut sink = new_sink(128);
    proof {
        lemma_user_ends_matched(*user);
    }
    match write_events(&mut sink, &events) {
        Ok(()) => {
            assert(writes_of(events@).take(writes_of(events@).len() as int) =~= writes_of(events@));
            Some(sink_bytes(&sink))
        },
        Err(_) => None,
    }
}

/// Serializes a collection of users with Thrift's compact protocol into a
/// 128-byte memory channel, as `serialize_user_compact` does for one user.
/// A collection whose writes do not all fit makes the serializer panic:
/// such collections are left out.
pub fn serialize_collection_compact(collection: &UserCollection) -> (bytes: Vec<u8>)
    requires
        collection.wf(),
        thrift_writes_fit(collection_writes(*collection), serializer_capacity()),
    ensures
        thrift_compact_written(collection_writes(*collection), serializer_capacity()) == ok_bytes(
            bytes@,
        ),
{
    let events = collection_events(collection);
    let mut sink = new_sink(128);
    proof {
        lemma_collection_balanced(*collection);
    }
    let r = write_events(&mut sink, &events);
    assert(writes_of(events@).take(writes_of(events@).len() as int) =~= writes_of(events@));
    sink_bytes(&sink)
}

/// Serializes a collection as `serialize_collection_compact` does, or gives
/// `None` where one of the serializer's writes would not fit.
pub fn try_serialize_collection_compact(collection: &UserCollection) -> (bytes: Option<Vec<u8>>)
    requires
        collection.wf(),
    ensures
        bytes is None <==> !thrift_writes_fit(collection_writes(*collection), serializer_capacity()),
        bytes matches Some(b) ==> thrift_compact_written(
            collection_writes(*collection),
            serializer_capacity(),
        ) == ok_bytes(b@),
{
    let events = collection_events(collection);
    let mut sink = new_sink(128);
    proof {
        lemma_collection_balanced(*collection);
    }
    match write_events(&mut sink, &events) {
        Ok(()) => {
            assert(writes_of(events@).take(writes_of(events@).len() as int) =~= writes_of(events@));
            Some(sink_bytes(&sink))
        },
        Err(_) => None,
    }
}

} // verus!
