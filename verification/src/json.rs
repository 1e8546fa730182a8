//! JSON values, as the metadata and page views render them, with the
//! helpers that build them and the hexadecimal rendering of byte strings.

use vstd::prelude::*;
use crate::errors::push_char;

verus! {

/// A JSON value.
#[derive(Debug)]
pub enum JsonValue {
    Null,
    Bool(bool),
    Int(i64),
    UInt(u64),
    Text(String),
    Array(Vec<JsonValue>),
    Object(Vec<(String, JsonValue)>),
}

/// The mathematical JSON value: numbers as integers, strings as character
/// sequences, object members in their order.
pub enum Json {
    Null,
    Bool(bool),
    Num(int),
    Text(Seq<char>),
    Array(Seq<Json>),
    Object(Seq<(Seq<char>, Json)>),
}

impl JsonValue {
    /// The value this JSON value denotes.
    pub open spec fn json(self) -> Json
        decreases self,
    {
        match self {
            JsonValue::Null => Json::Null,
            JsonValue::Bool(b) => Json::Bool(b),
            JsonValue::Int(n) => Json::Num(n as int),
            JsonValue::UInt(n) => Json::Num(n as int),
            JsonValue::Text(s) => Json::Text(s@),
            JsonValue::Array(items) => Json::Array(
                Seq::new(
                    items.len() as nat,
                    |i: int|
                        if 0 <= i < items.len() {
                            items@[i].json()
                        } else {
                            Json::Null
                        },
                ),
            ),
            JsonValue::Object(members) => Json::Object(
                Seq::new(
                    members.len() as nat,
                    |i: int|
                        if 0 <= i < members.len() {
                            (members@[i].0@, members@[i].1.json())
                        } else {
                            (Seq::empty(), Json::Null)
                        },
                ),
            ),
        }
    }
}

impl View for JsonValue {
    type V = Json;

    open spec fn view(&self) -> Json {
        self.json()
    }
}

/// The members of an object, as values.
pub open spec fn members_json(ms: Seq<(String, JsonValue)>) -> Seq<(Seq<char>, Json)> {
    Seq::new(ms.len(), |i: int| (ms[i].0@, ms[i].1.json()))
}

/// The items of an array, as values.
pub open spec fn items_json(vs: Seq<JsonValue>) -> Seq<Json> {
    Seq::new(vs.len(), |i: int| vs[i].json())
}

/// An optional number: the number, or null.
pub open spec fn opt_num(o: Option<int>) -> Json {
    match o {
        Some(n) => Json::Num(n),
        None => Json::Null,
    }
}

/// An optional string: the string, or null.
pub open spec fn opt_text(o: Option<Seq<char>>) -> Json {
    match o {
        Some(s) => Json::Text(s),
        None => Json::Null,
    }
}

/// An optional boolean: the boolean, or null.
pub open spec fn opt_bool(o: Option<bool>) -> Json {
    match o {
        Some(b) => Json::Bool(b),
        None => Json::Null,
    }
}

/// An optional `i32`, as a number.
pub open spec fn opt_i32(o: Option<i32>) -> Option<int> {
    match o {
        Some(n) => Some(n as int),
        None => None,
    }
}

/// An optional `i64`, as a number.
pub open spec fn opt_i64(o: Option<i64>) -> Option<int> {
    match o {
        Some(n) => Some(n as int),
        None => None,
    }
}

/// An optional string's characters.
pub open spec fn opt_str(o: Option<String>) -> Option<Seq<char>> {
    match o {
        Some(s) => Some(s@),
        None => None,
    }
}

/// A list of strings, as an array of strings.
pub open spec fn text_array(ss: Seq<String>) -> Json {
    Json::Array(Seq::new(ss.len(), |i: int| Json::Text(ss[i]@)))
}

/// The lower-case hexadecimal digit of `d` (below 16).
pub open spec fn hex_digit(d: nat) -> char {
    if d < 10 {
        (('0' as nat) + d) as char
    } else {
        (('a' as nat) + d - 10) as char
    }
}

/// Bytes in lower-case hexadecimal, two digits per byte, high digit first.
pub open spec fn hex_text(bytes: Seq<u8>) -> Seq<char>
    decreases bytes.len(),
{
    if bytes.len() == 0 {
        Seq::empty()
    } else {
        hex_text(bytes.drop_last()) + seq![
            hex_digit(bytes.last() as nat / 16),
            hex_digit(bytes.last() as nat % 16),
        ]
    }
}

/// Optional bytes in hexadecimal, or null.
pub open spec fn opt_hex(o: Option<Vec<u8>>) -> Json {
    match o {
        Some(b) => Json::Text(hex_text(b@)),
        None => Json::Null,
    }
}

proof fn lemma_object_json(ms: Vec<(String, JsonValue)>)
    ensures
        JsonValue::Object(ms).json() == Json::Object(members_json(ms@)),
{
    assert(JsonValue::Object(ms).json()->Object_0 =~= members_json(ms@));
}

proof fn lemma_array_json(vs: Vec<JsonValue>)
    ensures
        JsonValue::Array(vs).json() == Json::Array(items_json(vs@)),
{
    assert(JsonValue::Array(vs).json()->Array_0 =~= items_json(vs@));
}

/// An object of these members.
pub fn object(members: Vec<(String, JsonValue)>) -> (j: JsonValue)
    ensures
        j.json() == Json::Object(members_json(members@)),
{
    proof {
        lemma_object_json(members);
    }
    JsonValue::Object(members)
}

/// An array of these items.
pub fn array(items: Vec<JsonValue>) -> (j: JsonValue)
    ensures
        j.json() == Json::Array(items_json(items@)),
{
    proof {
        lemma_array_json(items);
    }
    JsonValue::Array(items)
}

/// Appends a member to an object's members.
pub fn add_member(members: &mut Vec<(String, JsonValue)>, key: &str, value: JsonValue)
    ensures
        members_json(final(members)@) == members_json(old(members)@).push((key@, value.json())),
{
    let k = key.to_string();
    members.push((k, value));
    assert(members_json(members@) =~= members_json(old(members)@).push((key@, value.json())));
}

/// Appends an item to an array's items.
pub fn add_item(items: &mut Vec<JsonValue>, value: JsonValue)
    ensures
        items_json(final(items)@) == items_json(old(items)@).push(value.json()),
{
    items.push(value);
    assert(items_json(items@) =~= items_json(old(items)@).push(value.json()));
}

/// No members yet.
pub fn no_members() -> (ms: Vec<(String, JsonValue)>)
    ensures
        members_json(ms@) == Seq::<(Seq<char>, Json)>::empty(),
{
    let ms: Vec<(String, JsonValue)> = Vec::new();
    assert(members_json(ms@) =~= Seq::<(Seq<char>, Json)>::empty());
    ms
}

/// A string.
pub fn text(s: &str) -> (j: JsonValue)
    ensures
        j.json() == Json::Text(s@),
{
    JsonValue::Text(s.to_string())
}

/// A copy of a string.
pub fn text_of(s: &String) -> (j: JsonValue)
    ensures
        j.json() == Json::Text(s@),
{
    JsonValue::Text(s.clone())
}

/// An optional string, or null.
pub fn opt_text_value(o: &Option<String>) -> (j: JsonValue)
    ensures
        j.json() == opt_text(opt_str(*o)),
{
    match o {
        Some(s) => JsonValue::Text(s.clone()),
        None => JsonValue::Null,
    }
}

/// An optional `i32`, or null.
pub fn opt_i32_value(o: Option<i32>) -> (j: JsonValue)
    ensures
        j.json() == opt_num(opt_i32(o)),
{
    match o {
        Some(n) => JsonValue::Int(n as i64),
        None => JsonValue::Null,
    }
}

/// An optional `i64`, or null.
pub fn opt_i64_value(o: Option<i64>) -> (j: JsonValue)
    ensures
        j.json() == opt_num(opt_i64(o)),
{
    match o {
        Some(n) => JsonValue::Int(n),
        None => JsonValue::Null,
    }
}

/// An optional boolean, or null.
pub fn opt_bool_value(o: Option<bool>) -> (j: JsonValue)
    ensures
        j.json() == opt_bool(o),
{
    match o {
        Some(b) => JsonValue::Bool(b),
        None => JsonValue::Null,
    }
}

/// A list of strings, as an array.
pub fn text_array_value(ss: &Vec<String>) -> (j: JsonValue)
    ensures
        j.json() == text_array(ss@),
{
    let mut items: Vec<JsonValue> = Vec::new();
    let mut i: usize = 0;
    while i < ss.len()
        invariant
            i <= ss.len(),
            items_json(items@) == Seq::new(i as nat, |k: int| Json::Text(ss@[k]@)),
        decreases ss.len() - i,
    {
        let ghost before = items_json(items@);
        add_item(&mut items, text_of(&ss[i]));
        assert(items_json(items@) =~= Seq::new((i + 1) as nat, |k: int| Json::Text(ss@[k]@)));
        i = i + 1;
    }
    assert(items_json(items@) =~= text_array(ss@)->Array_0);
    array(items)
}

/// The hexadecimal digit of `d`, below 16.
fn hex_digit_char(d: u8) -> (c: char)
    requires
        d < 16,
    ensures
        c == hex_digit(d as nat),
{
    if d < 10 {
        ((48u8 + d) as char)
    } else {
        ((87u8 + d) as char)
    }
}

/// Bytes in lower-case hexadecimal, two digits per byte.
pub fn hex_encode(bytes: &Vec<u8>) -> (s: String)
    ensures
        s@ == hex_text(bytes@),
{
    let mut s = String::new();
    let mut i: usize = 0;
    while i < bytes.len()
        invariant
            i <= bytes.len(),
            s@ == hex_text(bytes@.take(i as int)),
        decreases bytes.len() - i,
    {
        let b = bytes[i];
        let hi = hex_digit_char(b / 16);
        let lo = hex_digit_char(b % 16);
        push_char(&mut s, hi);
        push_char(&mut s, lo);
        proof {
            let t = bytes@.take(i + 1);
            assert(t.drop_last() =~= bytes@.take(i as int));
            assert(t.last() == b);
        }
        i = i + 1;
    }
    assert(bytes@.take(bytes.len() as int) =~= bytes@);
    s
}

/// Optional bytes in hexadecimal, or null.
pub fn opt_hex_value(o: &Option<Vec<u8>>) -> (j: JsonValue)
    ensures
        j.json() == opt_hex(*o),
{
    match o {
        Some(b) => JsonValue::Text(hex_encode(b)),
        None => JsonValue::Null,
    }
}

/// The value of the last member of `ms` with key `key`, if any.
pub open spec fn member_value(ms: Seq<(Seq<char>, Json)>, key: Seq<char>) -> Option<Json>
    decreases ms.len(),
{
    if ms.len() == 0 {
        None
    } else if ms.last().0 == key {
        Some(ms.last().1)
    } else {
        member_value(ms.drop_last(), key)
    }
}

/// The value an object holds for `key`, as reading the object into a map
/// keeps it (its last member with the key); none where `j` is no object or
/// has no member with the key.
pub open spec fn json_get(j: Json, key: Seq<char>) -> Option<Json> {
    match j {
        Json::Object(ms) => member_value(ms, key),
        _ => None,
    }
}

/// The item at index `i` of an array; none where `j` is no array or `i` is
/// out of its range.
pub open spec fn json_item(j: Json, i: int) -> Option<Json> {
    match j {
        Json::Array(items) => if 0 <= i < items.len() {
            Some(items[i])
        } else {
            None
        },
        _ => None,
    }
}

/// Whether no two members of `ms` have the same key.
pub open spec fn keys_distinct(ms: Seq<(Seq<char>, Json)>) -> bool {
    forall|i: int, j: int| 0 <= i < j < ms.len() ==> #[trigger] ms[i].0 != #[trigger] ms[j].0
}

/// An object with no member with key `key` holds nothing for it.
pub proof fn lemma_member_absent(ms: Seq<(Seq<char>, Json)>, key: Seq<char>)
    requires
        forall|j: int| 0 <= j < ms.len() ==> (#[trigger] ms[j]).0 != key,
    ensures
        member_value(ms, key) is None,
    decreases ms.len(),
{
    if ms.len() > 0 {
        assert(ms[ms.len() - 1].0 != key);
        lemma_member_absent(ms.drop_last(), key);
    }
}

/// Members appended after the last one with key `key` do not change what
/// the object holds for it, unless one of them has that key.
pub proof fn lemma_member_append(ms: Seq<(Seq<char>, Json)>, more: Seq<(Seq<char>, Json)>, key: Seq<char>)
    requires
        forall|j: int| 0 <= j < more.len() ==> (#[trigger] more[j]).0 != key,
    ensures
        member_value(ms + more, key) == member_value(ms, key),
    decreases more.len(),
{
    if more.len() == 0 {
        assert(ms + more =~= ms);
    } else {
        assert(more[more.len() - 1].0 != key);
        assert((ms + more).drop_last() =~= ms + more.drop_last());
        lemma_member_append(ms, more.drop_last(), key);
    }
}

/// The member at `i` gives the value an object holds for its key where no
/// later member has the same key.
pub proof fn lemma_member_at(ms: Seq<(Seq<char>, Json)>, i: int)
    requires
        0 <= i < ms.len(),
        forall|j: int| i < j < ms.len() ==> (#[trigger] ms[j]).0 != ms[i].0,
    ensures
        member_value(ms, ms[i].0) == Some(ms[i].1),
    decreases ms.len(),
{
    if i < ms.len() - 1 {
        assert(ms[ms.len() - 1].0 != ms[i].0);
        assert(ms.drop_last()[i] == ms[i]);
        lemma_member_at(ms.drop_last(), i);
    }
}

/// In an object whose keys are distinct, each member gives the value held
/// for its key.
pub proof fn lemma_members_distinct(ms: Seq<(Seq<char>, Json)>)
    requires
        keys_distinct(ms),
    ensures
        forall|i: int| 0 <= i < ms.len() ==> member_value(ms, (#[trigger] ms[i]).0) == Some(ms[i].1),
{
    assert forall|i: int| 0 <= i < ms.len() implies member_value(ms, (#[trigger] ms[i]).0) == Some(
        ms[i].1,
    ) by {
        assert forall|j: int| i < j < ms.len() implies (#[trigger] ms[j]).0 != ms[i].0 by {
            assert(ms[i].0 != ms[j].0);
        }
        lemma_member_at(ms, i);
    }
}

} // verus!
