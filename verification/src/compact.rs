//! A hand-written encoder for the Thrift compact protocol, and the encoding
//! of the `User` / `UserCollection` structs with it.
//!
//! The writer appends to an in-memory byte vector; handing the bytes to a
//! file or socket is left to the caller.

use vstd::prelude::*;
use vstd::utf8::encode_utf8;
use crate::varint::{
    lemma_set_high_bit, lemma_u32_low7, lemma_u64_low7,
    lemma_varint_read_of_written, lemma_zigzag_bijective, unzigzag, varint_encoding, varint_read,
    zigzag, VarintRead,
};

verus! {

/// Compact protocol type ids (low nibble of a field header).
pub const TTYPE_I32: u8 = 0x05;
pub const TTYPE_BINARY: u8 = 0x08;
pub const TTYPE_LIST: u8 = 0x09;
pub const TTYPE_MAP: u8 = 0x0B;
pub const TTYPE_I64: u8 = 0x06;
pub const TTYPE_STRUCT: u8 = 0x0C;
pub const TTYPE_STOP: u8 = 0x00;

fn zigzag_i32(n: i32) -> (r: u32)
    ensures
        r == zigzag(n as int),
{
    let r = ((n << 1) ^ (n >> 31)) as u32;
    assert(n >= 0 ==> ((n << 1) ^ (n >> 31)) as u32 == 2 * n) by (bit_vector);
    assert(n < 0 ==> ((n << 1) ^ (n >> 31)) as u32 == -2 * n - 1) by (bit_vector);
    r
}

fn zigzag_i16(n: i16) -> (r: u16)
    ensures
        r == zigzag(n as int),
{
    let r = ((n << 1) ^ (n >> 15)) as u16;
    assert(n >= 0 ==> ((n << 1) ^ (n >> 15)) as u16 == 2 * n) by (bit_vector);
    assert(n < 0 ==> ((n << 1) ^ (n >> 15)) as u16 == -2 * n - 1) by (bit_vector);
    r
}

/// The header of field `id` of type `ttype`, following field `prev`: one byte
/// holding the id delta and the type when the delta is 1..=15, otherwise the
/// type byte and the zigzag varint of the id.
pub open spec fn field_header_bytes(prev: int, id: i16, ttype: u8) -> Seq<u8> {
    let delta = id - prev;
    if 1 <= delta <= 15 {
        seq![(delta * 16 + ttype % 16) as u8]
    } else {
        seq![ttype % 16] + varint_encoding(zigzag(id as int))
    }
}

/// The header of a list of `len` elements of type `elem_ttype`.
pub open spec fn list_header_bytes(elem_ttype: u8, len: usize) -> Seq<u8> {
    if len < 15 {
        seq![(len * 16 + elem_ttype % 16) as u8]
    } else {
        seq![(0xF0 + elem_ttype % 16) as u8] + varint_encoding((len as u32) as nat)
    }
}

/// A string: the varint of its UTF-8 length (truncated to 32 bits), then its
/// UTF-8 bytes.
pub open spec fn string_bytes(s: Seq<char>) -> Seq<u8> {
    varint_encoding((encode_utf8(s).len() as u32) as nat) + encode_utf8(s)
}

pub open spec fn strings_bytes(ss: Seq<String>) -> Seq<u8>
    decreases ss.len(),
{
    if ss.len() == 0 {
        Seq::empty()
    } else {
        strings_bytes(ss.drop_last()) + string_bytes(ss.last()@)
    }
}

/// Map entries: each key as a string, each value as a zigzag varint.
pub open spec fn entries_bytes(es: Seq<(String, i64)>) -> Seq<u8>
    decreases es.len(),
{
    if es.len() == 0 {
        Seq::empty()
    } else {
        entries_bytes(es.drop_last()) + string_bytes(es.last().0@) + varint_encoding(
            zigzag(es.last().1 as int),
        )
    }
}

/// The map type byte: binary keys, i64 values.
pub open spec fn map_types_byte() -> u8 {
    ((TTYPE_BINARY % 16) * 16 + TTYPE_I64 % 16) as u8
}

/// Whether string `a` comes before string `b`: lexicographically by
/// characters, which is the order of Rust's strings (UTF-8 keeps the order
/// of code points).
pub open spec fn str_less(a: Seq<char>, b: Seq<char>) -> bool
    decreases a.len(),
{
    if a.len() == 0 {
        b.len() > 0
    } else if b.len() == 0 {
        false
    } else if a[0] != b[0] {
        (a[0] as u32) < (b[0] as u32)
    } else {
        str_less(a.drop_first(), b.drop_first())
    }
}

/// Whether the keys of map entries are strictly ascending, hence unique.
pub open spec fn keys_ascending(es: Seq<(String, i64)>) -> bool {
    forall|i: int, j: int| 0 <= i < j < es.len() ==> str_less(#[trigger] es[i].0@, #[trigger] es[j].0@)
}

/// A user record as held by the encoder.  `attributes` holds the entries of
/// the user's attribute map in the order of an ordered map: ascending,
/// unique keys (see `wf`).
pub struct User {
    pub id: i32,
    pub name: String,
    pub email: Option<String>,
    pub tags: Option<Vec<String>>,
    pub attributes: Option<Vec<(String, i64)>>,
}

pub struct UserCollection {
    pub users: Vec<User>,
}

impl User {
    /// The attributes are the entries of a map, in ascending key order.
    pub open spec fn wf(&self) -> bool {
        self.attributes matches Some(a) ==> keys_ascending(a@)
    }
}

impl UserCollection {
    /// Every user is well formed.
    pub open spec fn wf(&self) -> bool {
        forall|i: int| 0 <= i < self.users@.len() ==> (#[trigger] self.users@[i]).wf()
    }
}

/// Field 3 (email), when present.
pub open spec fn email_field_bytes(u: User) -> Seq<u8> {
    match u.email {
        Some(e) => field_header_bytes(2, 3, TTYPE_BINARY) + string_bytes(e@),
        None => Seq::empty(),
    }
}

/// The id of the last field written before the tags.
pub open spec fn id_before_tags(u: User) -> int {
    if u.email is Some {
        3
    } else {
        2
    }
}

/// Field 4 (tags, a list of strings), when present.
pub open spec fn tags_field_bytes(u: User) -> Seq<u8> {
    match u.tags {
        Some(t) => field_header_bytes(id_before_tags(u), 4, TTYPE_LIST) + list_header_bytes(
            TTYPE_BINARY,
            t.len(),
        ) + strings_bytes(t@),
        None => Seq::empty(),
    }
}

/// The id of the last field written before the attributes.
pub open spec fn id_before_attributes(u: User) -> int {
    if u.tags is Some {
        4
    } else {
        id_before_tags(u)
    }
}

/// Field 5 (attributes, a map from strings to i64), when present: the entry
/// count, the key/value type byte, then the entries.
pub open spec fn attributes_field_bytes(u: User) -> Seq<u8> {
    match u.attributes {
        Some(a) => field_header_bytes(id_before_attributes(u), 5, TTYPE_MAP) + varint_encoding(
            (a.len() as u32) as nat,
        ) + seq![map_types_byte()] + entries_bytes(a@),
        None => Seq::empty(),
    }
}

/// Fields 1 (id) and 2 (name).
pub open spec fn head_field_bytes(u: User) -> Seq<u8> {
    field_header_bytes(0, 1, TTYPE_I32) + varint_encoding(zigzag(u.id as int)) + field_header_bytes(
        1,
        2,
        TTYPE_BINARY,
    ) + string_bytes(u.name@)
}

/// The compact encoding of a user struct: id (1), name (2), the optional
/// fields, then the stop byte.
pub open spec fn user_bytes(u: User) -> Seq<u8> {
    head_field_bytes(u) + email_field_bytes(u) + tags_field_bytes(u) + attributes_field_bytes(u)
        + seq![TTYPE_STOP]
}

pub open spec fn users_bytes(us: Seq<User>) -> Seq<u8>
    decreases us.len(),
{
    if us.len() == 0 {
        Seq::empty()
    } else {
        users_bytes(us.drop_last()) + user_bytes(us.last())
    }
}

/// The compact encoding of a collection: its list of users as field 1, then
/// the stop byte.
pub open spec fn collection_bytes(c: UserCollection) -> Seq<u8> {
    field_header_bytes(0, 1, TTYPE_LIST) + list_header_bytes(TTYPE_STRUCT, c.users.len())
        + users_bytes(c.users@) + seq![TTYPE_STOP]
}

/// Writes Thrift compact-protocol values to the end of a byte vector,
/// remembering the id of the last field header written.
pub struct CompactWriter {
    out: Vec<u8>,
    prev_field_id: i16,
}

impl CompactWriter {
    /// The bytes in the output so far.
    pub closed spec fn written(&self) -> Seq<u8> {
        self.out@
    }

    /// The id of the last field header written (0 at the start of a struct).
    pub closed spec fn last_field_id(&self) -> i16 {
        self.prev_field_id
    }

    pub fn new(out: Vec<u8>) -> (w: Self)
        ensures
            w.written() == out@,
            w.last_field_id() == 0,
    {
        Self { out, prev_field_id: 0 }
    }

    /// Hands back the output vector.
    pub fn into_inner(self) -> (out: Vec<u8>)
        ensures
            out@ == self.written(),
    {
        self.out
    }

    pub fn write_stop(&mut self)
        ensures
            final(self).written() == old(self).written().push(TTYPE_STOP),
            final(self).last_field_id() == old(self).last_field_id(),
    {
        self.out.push(TTYPE_STOP);
    }

    pub fn write_field_header(&mut self, field_id: i16, ttype: u8)
        requires
            i16::MIN <= field_id - old(self).last_field_id() <= i16::MAX,
        ensures
            final(self).written() == old(self).written() + field_header_bytes(
                old(self).last_field_id() as int,
                field_id,
                ttype,
            ),
            final(self).last_field_id() == field_id,
    {
        let delta = field_id - self.prev_field_id;
        if 1 <= delta && delta <= 15 {
            let b = ((delta as u8) << 4) | (ttype & 0x0F);
            assert(1 <= delta <= 15 ==> ((delta as u8) << 4) | (ttype & 0x0F) == (delta * 16 + ttype
                % 16) as u8) by (bit_vector);
            self.out.push(b);
        } else {
            let t = ttype & 0x0F;
            assert(ttype & 0x0F == ttype % 16) by (bit_vector);
            self.out.push(t);
            let z = zigzag_i16(field_id);
            self.write_varint_u32(z as u32);
        }
        self.prev_field_id = field_id;
    }

    pub fn write_i32(&mut self, v: i32)
        ensures
            final(self).written() == old(self).written() + varint_encoding(zigzag(v as int)),
            final(self).last_field_id() == old(self).last_field_id(),
    {
        let z = zigzag_i32(v);
        self.write_varint_u32(z);
    }

    pub fn write_string(&mut self, s: &str)
        ensures
            final(self).written() == old(self).written() + string_bytes(s@),
            final(self).last_field_id() == old(self).last_field_id(),
    {
        let bytes = s.as_bytes();
        self.write_varint_u32(bytes.len() as u32);
        let ghost mid = self.out@;
        self.out.extend_from_slice(bytes);
        assert(self.out@ =~= mid + bytes@);
    }

    pub fn write_i64(&mut self, v: i64)
        ensures
            final(self).written() == old(self).written() + varint_encoding(zigzag(v as int)),
            final(self).last_field_id() == old(self).last_field_id(),
    {
        let zz = ((v << 1) ^ (v >> 63)) as u64;
        assert(v >= 0 ==> ((v << 1) ^ (v >> 63)) as u64 == 2 * v) by (bit_vector);
        assert(v < 0 ==> ((v << 1) ^ (v >> 63)) as u64 == -2 * v - 1) by (bit_vector);
        self.write_varint_u64(zz);
    }

    pub fn write_varint_u32(&mut self, x: u32)
        ensures
            final(self).written() == old(self).written() + varint_encoding(x as nat),
            final(self).last_field_id() == old(self).last_field_id(),
    {
        let mut x = x;
        let ghost target = self.out@ + varint_encoding(x as nat);
        loop
            invariant_except_break
                self.out@ + varint_encoding(x as nat) == target,
            invariant
                self.prev_field_id == old(self).prev_field_id,
            ensures
                self.out@ == target,
            decreases x,
        {
            proof {
                lemma_u32_low7(x);
            }
            let ghost x0 = x;
            let mut b = (x & 0x7F) as u8;
            x = x >> 7;
            if x != 0 {
                proof {
                    lemma_set_high_bit(b);
                }
                b = b | 0x80;
                self.out.push(b);
                assert(self.out@ + varint_encoding(x as nat) =~= target);
            } else {
                self.out.push(b);
                assert(self.out@ =~= target);
                break;
            }
        }
    }

    pub fn write_varint_u64(&mut self, x: u64)
        ensures
            final(self).written() == old(self).written() + varint_encoding(x as nat),
            final(self).last_field_id() == old(self).last_field_id(),
    {
        let mut x = x;
        let ghost target = self.out@ + varint_encoding(x as nat);
        loop
            invariant_except_break
                self.out@ + varint_encoding(x as nat) == target,
            invariant
                self.prev_field_id == old(self).prev_field_id,
            ensures
                self.out@ == target,
            decreases x,
        {
            proof {
                lemma_u64_low7(x);
            }
            let mut b = (x & 0x7F) as u8;
            x = x >> 7;
            if x != 0 {
                proof {
                    lemma_set_high_bit(b);
                }
                b = b | 0x80;
                self.out.push(b);
                assert(self.out@ + varint_encoding(x as nat) =~= target);
            } else {
                self.out.push(b);
                assert(self.out@ =~= target);
                break;
            }
        }
    }

    pub fn write_list_header(&mut self, elem_ttype: u8, len: usize)
        ensures
            final(self).written() == old(self).written() + list_header_bytes(elem_ttype, len),
            final(self).last_field_id() == old(self).last_field_id(),
    {
        if len < 15 {
            let b = ((len as u8) << 4) | (elem_ttype & 0x0F);
            assert(len < 15 ==> ((len as u8) << 4) | (elem_ttype & 0x0F) == (len * 16 + elem_ttype
                % 16) as u8) by (bit_vector);
            self.out.push(b);
        } else {
            let b = (0xF0) | (elem_ttype & 0x0F);
            assert((0xF0u8) | (elem_ttype & 0x0F) == (0xF0 + elem_ttype % 16) as u8)
                by (bit_vector);
            self.out.push(b);
            self.write_varint_u32(len as u32);
        }
    }
}

fn write_head_fields(cw: &mut CompactWriter, user: &User)
    requires
        old(cw).prev_field_id == 0,
    ensures
        final(cw).out@ == old(cw).out@ + head_field_bytes(*user),
        final(cw).prev_field_id == 2,
{
    cw.write_field_header(1, TTYPE_I32);
    cw.write_i32(user.id);
    cw.write_field_header(2, TTYPE_BINARY);
    cw.write_string(user.name.as_str());
    assert(cw.out@ =~= old(cw).out@ + head_field_bytes(*user));
}

fn write_email_field(cw: &mut CompactWriter, user: &User)
    requires
        old(cw).prev_field_id == 2,
    ensures
        final(cw).out@ == old(cw).out@ + email_field_bytes(*user),
        final(cw).prev_field_id == id_before_tags(*user),
{
    if let Some(email) = &user.email {
        cw.write_field_header(3, TTYPE_BINARY);
        cw.write_string(email.as_str());
    }
    assert(cw.out@ =~= old(cw).out@ + email_field_bytes(*user));
}

fn write_tags_field(cw: &mut CompactWriter, user: &User)
    requires
        old(cw).prev_field_id == id_before_tags(*user),
    ensures
        final(cw).out@ == old(cw).out@ + tags_field_bytes(*user),
        final(cw).prev_field_id == id_before_attributes(*user),
{
    if let Some(tags) = &user.tags {
        cw.write_field_header(4, TTYPE_LIST);
        cw.write_list_header(TTYPE_BINARY, tags.len());
        let ghost list_start = cw.out@;
        let mut i: usize = 0;
        while i < tags.len()
            invariant
                0 <= i <= tags.len(),
                cw.out@ == list_start + strings_bytes(tags@.take(i as int)),
                cw.prev_field_id == 4,
            decreases tags.len() - i,
        {
            cw.write_string(tags[i].as_str());
            assert(tags@.take(i + 1).drop_last() =~= tags@.take(i as int));
            assert(cw.out@ =~= list_start + strings_bytes(tags@.take(i + 1)));
            i = i + 1;
        }
        assert(tags@.take(tags.len() as int) =~= tags@);
    }
    assert(cw.out@ =~= old(cw).out@ + tags_field_bytes(*user));
}

fn write_attributes_field(cw: &mut CompactWriter, user: &User)
    requires
        old(cw).prev_field_id == id_before_attributes(*user),
    ensures
        final(cw).out@ == old(cw).out@ + attributes_field_bytes(*user),
{
    if let Some(attrs) = &user.attributes {
        cw.write_field_header(5, TTYPE_MAP);
        // map header: entry count, then (key type << 4) | value type
        cw.write_varint_u32(attrs.len() as u32);
        let types = ((TTYPE_BINARY & 0x0F) << 4) | (TTYPE_I64 & 0x0F);
        assert(((TTYPE_BINARY & 0x0F) << 4) | (TTYPE_I64 & 0x0F) == 0x86u8) by (bit_vector);
        cw.out.push(types);
        let ghost entries_start = cw.out@;
        let mut i: usize = 0;
        while i < attrs.len()
            invariant
                0 <= i <= attrs.len(),
                cw.out@ == entries_start + entries_bytes(attrs@.take(i as int)),
            decreases attrs.len() - i,
        {
            let (k, v) = &attrs[i];
            cw.write_string(k.as_str());
            cw.write_i64(*v);
            assert(attrs@.take(i + 1).drop_last() =~= attrs@.take(i as int));
            assert(cw.out@ =~= entries_start + entries_bytes(attrs@.take(i + 1)));
            i = i + 1;
        }
        assert(attrs@.take(attrs.len() as int) =~= attrs@);
    }
    assert(cw.out@ =~= old(cw).out@ + attributes_field_bytes(*user));
}

/// Writes `user` as a compact-protocol struct: id (1), name (2), then the
/// email (3), tags (4) and attributes (5) that are present, then the stop
/// byte.  Field ids restart at 0 inside the struct and the writer's last
/// field id is restored afterwards.
pub fn write_user_compact(cw: &mut CompactWriter, user: &User)
    requires
        user.wf(),
    ensures
        final(cw).written() == old(cw).written() + user_bytes(*user),
        final(cw).last_field_id() == old(cw).last_field_id(),
{
    // each struct restarts the field id deltas
    let saved = cw.prev_field_id;
    cw.prev_field_id = 0;
    let ghost start = cw.out@;

    write_head_fields(cw, user);
    write_email_field(cw, user);
    write_tags_field(cw, user);
    write_attributes_field(cw, user);
    cw.write_stop();
    cw.prev_field_id = saved;
    assert(cw.out@ =~= start + user_bytes(*user));
}

/// Writes `coll` as a compact-protocol struct whose field 1 is the list of
/// its users, then the stop byte; the writer's last field id is restored.
pub fn write_collection_compact(cw: &mut CompactWriter, coll: &UserCollection)
    requires
        coll.wf(),
    ensures
        final(cw).written() == old(cw).written() + collection_bytes(*coll),
        final(cw).last_field_id() == old(cw).last_field_id(),
{
    let saved = cw.prev_field_id;
    cw.prev_field_id = 0;
    let ghost start = cw.out@;

    cw.write_field_header(1, TTYPE_LIST);
    let users = &coll.users;
    cw.write_list_header(TTYPE_STRUCT, users.len());
    let ghost list_start = cw.out@;
    let mut i: usize = 0;
    while i < users.len()
        invariant
            0 <= i <= users.len(),
            cw.out@ == list_start + users_bytes(users@.take(i as int)),
            cw.prev_field_id == 1,
            coll.wf(),
            users == &coll.users,
        decreases users.len() - i,
    {
        write_user_compact(cw, &users[i]);
        assert(users@.take(i + 1).drop_last() =~= users@.take(i as int));
        assert(cw.out@ =~= list_start + users_bytes(users@.take(i + 1)));
        i = i + 1;
    }
    assert(users@.take(users.len() as int) =~= users@);
    cw.write_stop();
    cw.prev_field_id = saved;
    assert(cw.out@ =~= start + collection_bytes(*coll));
}

/// A struct's fields as the compact protocol frames them: each field's
/// id, its type, and the bytes of its value.
pub type FieldFrame = (i16, u8, Seq<u8>);

/// The id of the last field in `fields`; 0 before the first field.
pub open spec fn last_field_id(fields: Seq<FieldFrame>) -> int {
    if fields.len() == 0 {
        0
    } else {
        fields.last().0 as int
    }
}

/// The fields of a struct written in order: each field header gives its id
/// relative to the id of the field written just before it in the struct
/// (relative to 0 for the first), followed by the field's value.
pub open spec fn framed_fields(fields: Seq<FieldFrame>) -> Seq<u8>
    decreases fields.len(),
{
    if fields.len() == 0 {
        Seq::empty()
    } else {
        framed_fields(fields.drop_last()) + field_header_bytes(
            last_field_id(fields.drop_last()),
            fields.last().0,
            fields.last().1,
        ) + fields.last().2
    }
}

/// A user's fields 1 (id) and 2 (name).
pub open spec fn head_fields(u: User) -> Seq<FieldFrame> {
    seq![
        (1i16, TTYPE_I32, varint_encoding(zigzag(u.id as int))),
        (2i16, TTYPE_BINARY, string_bytes(u.name@)),
    ]
}

/// A user's fields up to the email (3), where present.
pub open spec fn fields_to_email(u: User) -> Seq<FieldFrame> {
    match u.email {
        Some(e) => head_fields(u).push((3i16, TTYPE_BINARY, string_bytes(e@))),
        None => head_fields(u),
    }
}

/// A user's fields up to the tags (4), where present.
pub open spec fn fields_to_tags(u: User) -> Seq<FieldFrame> {
    match u.tags {
        Some(t) => fields_to_email(u).push(
            (4i16, TTYPE_LIST, list_header_bytes(TTYPE_BINARY, t.len()) + strings_bytes(t@)),
        ),
        None => fields_to_email(u),
    }
}

/// The fields a user holds, in id order: id (1) and name (2) always, email
/// (3), tags (4) and attributes (5) where present, each with its type and
/// the bytes of its value.
pub open spec fn user_fields(u: User) -> Seq<FieldFrame> {
    match u.attributes {
        Some(a) => fields_to_tags(u).push(
            (
                5i16,
                TTYPE_MAP,
                varint_encoding((a.len() as u32) as nat) + seq![map_types_byte()] + entries_bytes(a@),
            ),
        ),
        None => fields_to_tags(u),
    }
}

proof fn lemma_framed_push(fields: Seq<FieldFrame>, f: FieldFrame)
    ensures
        framed_fields(fields.push(f)) == framed_fields(fields) + field_header_bytes(
            last_field_id(fields),
            f.0,
            f.1,
        ) + f.2,
{
    assert(fields.push(f).drop_last() =~= fields);
}

proof fn lemma_head_framed(u: User)
    ensures
        framed_fields(head_fields(u)) == head_field_bytes(u),
        last_field_id(head_fields(u)) == 2,
{
    let f1 = (1i16, TTYPE_I32, varint_encoding(zigzag(u.id as int)));
    let f2 = (2i16, TTYPE_BINARY, string_bytes(u.name@));
    let e = Seq::<FieldFrame>::empty();
    assert(head_fields(u) =~= e.push(f1).push(f2));
    lemma_framed_push(e, f1);
    lemma_framed_push(e.push(f1), f2);
    assert(framed_fields(e) == Seq::<u8>::empty());
    assert(framed_fields(head_fields(u)) =~= head_field_bytes(u));
}

proof fn lemma_email_framed(u: User)
    ensures
        framed_fields(fields_to_email(u)) == head_field_bytes(u) + email_field_bytes(u),
        last_field_id(fields_to_email(u)) == id_before_tags(u),
{
    lemma_head_framed(u);
    if let Some(e) = u.email {
        lemma_framed_push(head_fields(u), (3i16, TTYPE_BINARY, string_bytes(e@)));
    }
    assert(framed_fields(fields_to_email(u)) =~= head_field_bytes(u) + email_field_bytes(u));
}

proof fn lemma_tags_framed(u: User)
    ensures
        framed_fields(fields_to_tags(u)) == head_field_bytes(u) + email_field_bytes(u)
            + tags_field_bytes(u),
        last_field_id(fields_to_tags(u)) == id_before_attributes(u),
{
    lemma_email_framed(u);
    if let Some(t) = u.tags {
        lemma_framed_push(
            fields_to_email(u),
            (4i16, TTYPE_LIST, list_header_bytes(TTYPE_BINARY, t.len()) + strings_bytes(t@)),
        );
    }
    assert(framed_fields(fields_to_tags(u)) =~= head_field_bytes(u) + email_field_bytes(u)
        + tags_field_bytes(u));
}

/// A user is written as its present fields, each field header relative to
/// the field written just before it (so an absent field shifts the delta of
/// the next present one), then the stop byte.
pub proof fn lemma_user_bytes_framed(u: User)
    ensures
        user_bytes(u) == framed_fields(user_fields(u)) + seq![TTYPE_STOP],
{
    lemma_tags_framed(u);
    if let Some(a) = u.attributes {
        lemma_framed_push(
            fields_to_tags(u),
            (
                5i16,
                TTYPE_MAP,
                varint_encoding((a.len() as u32) as nat) + seq![map_types_byte()] + entries_bytes(a@),
            ),
        );
    }
    assert(framed_fields(user_fields(u)) =~= head_field_bytes(u) + email_field_bytes(u)
        + tags_field_bytes(u) + attributes_field_bytes(u));
}

/// A collection is written as its one field (1), the list of its users, each
/// user framed as a struct of its own, then the stop byte.
pub proof fn lemma_collection_bytes_framed(c: UserCollection)
    ensures
        collection_bytes(c) == framed_fields(
            seq![
                (
                    1i16,
                    TTYPE_LIST,
                    list_header_bytes(TTYPE_STRUCT, c.users.len()) + users_bytes(c.users@),
                ),
            ],
        ) + seq![TTYPE_STOP],
        forall|i: int|
            0 <= i < c.users@.len() ==> user_bytes(#[trigger] c.users@[i]) == framed_fields(
                user_fields(c.users@[i]),
            ) + seq![TTYPE_STOP],
{
    let f = (
        1i16,
        TTYPE_LIST,
        list_header_bytes(TTYPE_STRUCT, c.users.len()) + users_bytes(c.users@),
    );
    assert(seq![f] =~= Seq::<FieldFrame>::empty().push(f));
    lemma_framed_push(Seq::<FieldFrame>::empty(), f);
    assert(framed_fields(Seq::<FieldFrame>::empty()) == Seq::<u8>::empty());
    assert(framed_fields(seq![f]) =~= field_header_bytes(0, 1, TTYPE_LIST) + f.2);
    assert forall|i: int| 0 <= i < c.users@.len() implies user_bytes(#[trigger] c.users@[i])
        == framed_fields(user_fields(c.users@[i])) + seq![TTYPE_STOP] by {
        lemma_user_bytes_framed(c.users@[i]);
    }
}

/// A field header reads back as the field's id and type: with a delta of
/// 1 to 15 from the previous field's id, one byte holding the delta in its
/// high four bits and the type in its low four; otherwise a byte holding
/// the type alone, then the id as a zigzag varint.
pub proof fn lemma_field_header_reads_back(prev: int, id: i16, ttype: u8)
    ensures
        ({
            let b = field_header_bytes(prev, id, ttype);
            &&& b.len() >= 1
            &&& b[0] % 16 == ttype % 16
            &&& if 1 <= id - prev <= 15 {
                b.len() == 1 && b[0] / 16 == id - prev
            } else {
                b[0] / 16 == 0 && (varint_read(b, 1) matches VarintRead::Value { value, next }
                    && unzigzag(value as nat) == id && next == b.len())
            }
        }),
{
    let b = field_header_bytes(prev, id, ttype);
    let delta = id - prev;
    if !(1 <= delta <= 15) {
        let z = zigzag(id as int);
        lemma_zigzag_bijective(id as int, 0);
        assert(z < 0x1_0000_0000);
        let rest = varint_encoding(z);
        lemma_varint_read_of_written(z as u32, Seq::empty());
        assert(rest + Seq::<u8>::empty() =~= rest);
        lemma_varint_shift_one(ttype % 16, rest);
    }
}

proof fn lemma_varint_shift_one(t: u8, rest: Seq<u8>)
    ensures
        varint_read(seq![t] + rest, 1) == match varint_read(rest, 0) {
            VarintRead::Value { value, next } => VarintRead::Value { value, next: next + 1 },
            other => other,
        },
{
    crate::varint::lemma_varint_read_shift(seq![t], rest, 0);
}

/// A string is written as a varint of its UTF-8 length, which reads back
/// as that length, followed by exactly its UTF-8 bytes.
pub proof fn lemma_string_bytes_reads_back(s: Seq<char>)
    requires
        encode_utf8(s).len() < 0x1_0000_0000,
    ensures
        ({
            let b = string_bytes(s);
            varint_read(b, 0) matches VarintRead::Value { value, next } && value == encode_utf8(
                s,
            ).len() && b.subrange(next, b.len() as int) == encode_utf8(s)
        }),
{
    let n = encode_utf8(s).len();
    let enc = varint_encoding((n as u32) as nat);
    lemma_varint_read_of_written(n as u32, encode_utf8(s));
    assert(string_bytes(s).subrange(enc.len() as int, string_bytes(s).len() as int) =~= encode_utf8(s));
}

/// A list header reads back as the element type and the length: one byte
/// holding a length below 15 in its high four bits, or `0xF` there and the
/// length as a varint after it; the element type in the low four bits.
pub proof fn lemma_list_header_reads_back(elem_ttype: u8, len: usize)
    requires
        len < 0x1_0000_0000,
    ensures
        ({
            let b = list_header_bytes(elem_ttype, len);
            &&& b.len() >= 1
            &&& b[0] % 16 == elem_ttype % 16
            &&& if len < 15 {
                b.len() == 1 && b[0] / 16 == len
            } else {
                b[0] / 16 == 15 && (varint_read(b, 1) matches VarintRead::Value { value, next }
                    && value == len && next == b.len())
            }
        }),
{
    if len >= 15 {
        let rest = varint_encoding((len as u32) as nat);
        lemma_varint_read_of_written(len as u32, Seq::empty());
        assert(rest + Seq::<u8>::empty() =~= rest);
        lemma_varint_shift_one((0xF0 + elem_ttype % 16) as u8, rest);
    }
}

} // verus!
