//! The integer encodings of the Thrift compact protocol: unsigned varints
//! (seven bits per byte, least significant group first, the high bit of a
//! byte set when more bytes follow) and the zigzag mapping of signed integers.

use vstd::prelude::*;

verus! {

/// The varint encoding of `x`: its base-128 digits, least significant first,
/// each with the continuation bit set except the last.
pub open spec fn varint_encoding(x: nat) -> Seq<u8>
    decreases x,
{
    if x < 128 {
        seq![x as u8]
    } else {
        seq![(x % 128 + 128) as u8] + varint_encoding(x / 128)
    }
}

/// Zigzag maps 0, -1, 1, -2, 2, ... to 0, 1, 2, 3, 4, ...
pub open spec fn zigzag(n: int) -> nat {
    if n >= 0 {
        (2 * n) as nat
    } else {
        (-2 * n - 1) as nat
    }
}

/// 128 to the power `k`.
pub open spec fn pow128(k: nat) -> nat
    decreases k,
{
    if k == 0 {
        1
    } else {
        128 * pow128((k - 1) as nat)
    }
}

/// A number below 128^k takes at most k varint bytes.
pub proof fn lemma_varint_encoding_len_bound(x: nat, k: nat)
    requires
        x < pow128(k),
        k >= 1,
    ensures
        1 <= varint_encoding(x).len() <= k,
    decreases x,
{
    if x >= 128 {
        assert(k >= 2) by {
            if k == 1 {
                assert(pow128(1) == 128 * pow128(0));
            }
            if k == 0 {
            }
        }
        lemma_varint_encoding_len_bound(x / 128, (k - 1) as nat);
    }
}

/// The inverse of the zigzag mapping.
pub open spec fn unzigzag(z: nat) -> int {
    if z % 2 == 0 {
        (z / 2) as int
    } else {
        -((z + 1) / 2)
    }
}

/// Zigzag is a bijection between the integers and the naturals: decoding
/// undoes it, and small magnitudes get small codes.
pub proof fn lemma_zigzag_bijective(n: int, z: nat)
    ensures
        unzigzag(zigzag(n)) == n,
        zigzag(unzigzag(z)) == z,
        zigzag(n) <= 2 * (if n >= 0 {
            n
        } else {
            -n
        }),
{
}

/// The number of bytes of the varint encoding of `x`.
pub proof fn lemma_varint_encoding_len(x: nat)
    ensures
        varint_encoding(x).len() >= 1,
        x < 0x1_0000_0000 ==> varint_encoding(x).len() <= 5,
        x < 0x1_0000_0000_0000_0000 ==> varint_encoding(x).len() <= 10,
{
    reveal_with_fuel(pow128, 11);
    assert(pow128(5) == 0x8_0000_0000);
    assert(pow128(10) == 0x40_0000_0000_0000_0000);
    if x < 0x1_0000_0000 {
        lemma_varint_encoding_len_bound(x, 5);
    }
    if x < 0x1_0000_0000_0000_0000 {
        lemma_varint_encoding_len_bound(x, 10);
    }
}

/// Every byte but the last carries the continuation bit; the last does not.
pub proof fn lemma_varint_encoding_bytes(x: nat)
    ensures
        varint_encoding(x).last() < 128,
        forall|i: int| 0 <= i < varint_encoding(x).len() - 1 ==> varint_encoding(x)[i] >= 128,
    decreases x,
{
    if x >= 128 {
        lemma_varint_encoding_bytes(x / 128);
        let rest = varint_encoding(x / 128);
        assert forall|i: int| 0 <= i < varint_encoding(x).len() - 1 implies varint_encoding(x)[i]
            >= 128 by {
            if i > 0 {
                assert(varint_encoding(x)[i] == rest[i - 1]);
            }
        }
    }
}

/// The base-128 number whose digits are the low seven bits of the `n` bytes
/// of `data` from `pos`, least significant first.
pub open spec fn varint_groups(data: Seq<u8>, pos: int, n: nat) -> nat
    decreases n,
{
    if n == 0 {
        0
    } else {
        varint_groups(data, pos, (n - 1) as nat) + (data[pos + n - 1] % 128) as nat * pow128(
            (n - 1) as nat,
        )
    }
}

/// What reading a 32-bit varint from a byte sequence gives.
pub enum VarintRead {
    /// The value (truncated to 32 bits) and the position after its last byte.
    Value { value: u32, next: int },
    /// The input ended before a byte without the continuation bit.
    Eof,
    /// A sixth byte follows five bytes that all carry the continuation bit.
    TooLong,
}

/// Reading a 32-bit varint from `pos`, `k` of its bytes being read already.
pub open spec fn varint_read_from(data: Seq<u8>, pos: int, k: nat) -> VarintRead
    decreases 5 - k,
{
    if pos + k >= data.len() {
        VarintRead::Eof
    } else if k >= 5 {
        VarintRead::TooLong
    } else if data[pos + k] < 128 {
        VarintRead::Value {
            value: (varint_groups(data, pos, k + 1) % 0x1_0000_0000) as u32,
            next: pos + k + 1,
        }
    } else {
        varint_read_from(data, pos, k + 1)
    }
}

/// Reading a 32-bit varint at `pos`: the bytes up to and including the first
/// one below 128, their seven-bit groups as a base-128 number truncated to 32
/// bits.  At most five bytes are read.
pub open spec fn varint_read(data: Seq<u8>, pos: int) -> VarintRead {
    varint_read_from(data, pos, 0)
}

/// A varint read that succeeds ends past `pos` and within the input.
pub proof fn lemma_varint_read_bounds(data: Seq<u8>, pos: int)
    requires
        0 <= pos,
    ensures
        varint_read(data, pos) matches VarintRead::Value { next, .. } ==> pos < next
            <= data.len(),
{
    lemma_varint_read_from_bounds(data, pos, 0);
}

proof fn lemma_varint_read_from_bounds(data: Seq<u8>, pos: int, k: nat)
    requires
        0 <= pos,
    ensures
        varint_read_from(data, pos, k) matches VarintRead::Value { next, .. } ==> pos + k < next
            <= data.len(),
    decreases 5 - k,
{
    if pos + k < data.len() && k < 5 && data[pos + k] >= 128 {
        lemma_varint_read_from_bounds(data, pos, k + 1);
    }
}

/// Whether two byte sequences hold the same bytes from `lo` up to `hi`.
pub open spec fn bytes_agree(a: Seq<u8>, b: Seq<u8>, lo: int, hi: int) -> bool {
    &&& hi <= a.len()
    &&& hi <= b.len()
    &&& forall|i: int| lo <= i < hi ==> a[i] == b[i]
}

proof fn lemma_varint_groups_agree(a: Seq<u8>, b: Seq<u8>, pos: int, m: nat)
    requires
        0 <= pos,
        bytes_agree(a, b, pos, pos + m),
    ensures
        varint_groups(a, pos, m) == varint_groups(b, pos, m),
    decreases m,
{
    if m > 0 {
        lemma_varint_groups_agree(a, b, pos, (m - 1) as nat);
    }
}

proof fn lemma_varint_read_from_agree(a: Seq<u8>, b: Seq<u8>, pos: int, k: nat)
    requires
        0 <= pos,
        varint_read_from(a, pos, k) matches VarintRead::Value { next, .. } && bytes_agree(
            a,
            b,
            pos,
            next,
        ),
    ensures
        varint_read_from(b, pos, k) == varint_read_from(a, pos, k),
    decreases 5 - k,
{
    lemma_varint_read_from_bounds(a, pos, k);
    if a[pos + k] < 128 {
        lemma_varint_groups_agree(a, b, pos, k + 1);
    } else {
        lemma_varint_read_from_agree(a, b, pos, k + 1);
    }
}

/// A varint read depends only on the bytes it takes.
pub proof fn lemma_varint_read_agree(a: Seq<u8>, b: Seq<u8>, pos: int)
    requires
        0 <= pos,
        varint_read(a, pos) matches VarintRead::Value { next, .. } && bytes_agree(a, b, pos, next),
    ensures
        varint_read(b, pos) == varint_read(a, pos),
{
    lemma_varint_read_from_agree(a, b, pos, 0);
}

proof fn lemma_varint_read_encoding(x: u32, y: nat, data: Seq<u8>, pos: int, k: nat)
    requires
        0 <= pos,
        varint_groups(data, pos, k) + y * pow128(k) == x,
        k + varint_encoding(y).len() <= 5,
        pos + k + varint_encoding(y).len() <= data.len(),
        data.subrange(pos + k, pos + k + varint_encoding(y).len()) == varint_encoding(y),
    ensures
        varint_read_from(data, pos, k) == (VarintRead::Value {
            value: x,
            next: pos + k + varint_encoding(y).len(),
        }),
    decreases y,
{
    let enc = varint_encoding(y);
    assert(data[pos + k] == enc[0]);
    if y < 128 {
        assert(varint_groups(data, pos, k + 1) == x);
    } else {
        let rest = varint_encoding(y / 128);
        assert(enc == seq![(y % 128 + 128) as u8] + rest);
        assert(data.subrange(pos + k + 1, pos + k + 1 + rest.len()) =~= rest) by {
            assert forall|i: int| 0 <= i < rest.len() implies data[pos + k + 1 + i] == rest[i] by {
                assert(data[pos + k + 1 + i] == enc[1 + i]);
            }
        }
        assert(data[pos + k] % 128 == y % 128);
        let p = pow128(k);
        assert(pow128(k + 1) == 128 * p);
        assert((y % 128) * p + (y / 128) * (128 * p) == y * p) by (nonlinear_arith)
            requires
                p >= 0,
        {
            assert(y == 128 * (y / 128) + y % 128);
        }
        lemma_varint_read_encoding(x, y / 128, data, pos, k + 1);
    }
}

/// Reading a varint back where the encoding of a 32-bit value was written
/// gives that value and the position just after its encoding.
pub proof fn lemma_varint_roundtrip(x: u32, data: Seq<u8>, pos: int)
    requires
        0 <= pos,
        pos + varint_encoding(x as nat).len() <= data.len(),
        data.subrange(pos, pos + varint_encoding(x as nat).len()) == varint_encoding(x as nat),
    ensures
        varint_read(data, pos) == (VarintRead::Value {
            value: x,
            next: pos + varint_encoding(x as nat).len(),
        }),
{
    lemma_varint_encoding_len(x as nat);
    assert(pow128(0) == 1);
    lemma_varint_read_encoding(x, x as nat, data, pos, 0);
}

/// 128^k is 2^(7k).
pub proof fn lemma_pow128_pow2(k: nat)
    ensures
        pow128(k) == vstd::arithmetic::power2::pow2(7 * k),
    decreases k,
{
    vstd::arithmetic::power2::lemma2_to64();
    if k > 0 {
        lemma_pow128_pow2((k - 1) as nat);
        vstd::arithmetic::power2::lemma_pow2_adds(7 * (k - 1) as nat, 7);
    }
}

/// One more seven-bit group, or'ed in at bit 7k, adds its digit times 128^k
/// (modulo 2^32).
pub proof fn lemma_varint_or_group(r: u32, byte: u8, k: nat)
    requires
        k <= 4,
        r < pow128(k),
    ensures
        (r | (((byte & 0x7F) as u32) << ((7 * k) as u32))) as nat == (r + (byte % 128) as nat
            * pow128(k)) % 0x1_0000_0000,
        r + (byte % 128) as nat * pow128(k) < pow128(k + 1),
{
    let s: u32 = (7 * k) as u32;
    let c: u32 = (byte & 0x7F) as u32;
    assert((byte & 0x7F) as u32 == byte % 128) by (bit_vector);
    lemma_pow128_pow2(k);
    vstd::arithmetic::power2::lemma2_to64();
    vstd::arithmetic::power2::lemma_pow2_strictly_increases(s as nat, 32);
    vstd::bits::lemma_u32_shl_is_mul(1, s);
    assert(r < (1u32 << s));
    assert(s <= 28 && c < 128 && r < (1u32 << s) ==> (r | (c << s)) as u64 == (r as u64 + ((
    c as u64) << (s as u64))) % 0x1_0000_0000) by (bit_vector);
    vstd::arithmetic::power2::lemma_pow2_strictly_increases(s as nat, 57);
    vstd::arithmetic::power2::lemma_pow2_adds(s as nat, 7);
    assert(c * vstd::arithmetic::power2::pow2(s as nat) <= u64::MAX) by (nonlinear_arith)
        requires
            c < 128,
            vstd::arithmetic::power2::pow2(s as nat) <= vstd::arithmetic::power2::pow2(28),
            vstd::arithmetic::power2::pow2(28) == 0x1000_0000,
    ;
    vstd::bits::lemma_u64_shl_is_mul(c as u64, s as u64);
    let p = pow128(k);
    assert(pow128(k + 1) == 128 * p);
    assert(r + (byte % 128) as nat * p < 128 * p) by (nonlinear_arith)
        requires
            r < p,
            byte % 128 < 128,
    ;
}

/// The low seven bits of a byte, and the byte shifted by seven, in arithmetic.
pub proof fn lemma_u32_low7(x: u32)
    ensures
        (x & 0x7f) as u8 == (x % 128) as u8,
        x & 0x7f == x % 128,
        x >> 7 == x / 128,
{
    assert((x & 0x7f) == x % 128) by (bit_vector);
    assert(x >> 7 == x / 128) by (bit_vector);
}

pub proof fn lemma_u64_low7(x: u64)
    ensures
        x & 0x7f == x % 128,
        x >> 7 == x / 128,
{
    assert((x & 0x7f) == x % 128) by (bit_vector);
    assert(x >> 7 == x / 128) by (bit_vector);
}

/// Setting the continuation bit of a seven-bit group adds 128.
pub proof fn lemma_set_high_bit(b: u8)
    requires
        b < 128,
    ensures
        b | 0x80 == b + 128,
{
    assert(b < 128 ==> b | 0x80 == b + 128) by (bit_vector);
}

/// Reading a varint from the start of the encoding of a 32-bit value,
/// whatever follows it, gives that value and takes exactly its bytes.
pub proof fn lemma_varint_read_of_written(x: u32, rest: Seq<u8>)
    ensures
        varint_read(varint_encoding(x as nat) + rest, 0) == (VarintRead::Value {
            value: x,
            next: varint_encoding(x as nat).len() as int,
        }),
{
    let b = varint_encoding(x as nat);
    assert((b + rest).subrange(0, b.len() as int) =~= b);
    lemma_varint_roundtrip(x, b + rest, 0);
}

/// A varint read, its end position moved by `d`.
pub open spec fn read_shifted(r: VarintRead, d: int) -> VarintRead {
    match r {
        VarintRead::Value { value, next } => VarintRead::Value { value, next: next + d },
        other => other,
    }
}

proof fn lemma_varint_groups_shift(pre: Seq<u8>, rest: Seq<u8>, q: int, m: nat)
    requires
        0 <= q,
        q + m <= rest.len(),
    ensures
        varint_groups(pre + rest, pre.len() + q, m) == varint_groups(rest, q, m),
    decreases m,
{
    if m > 0 {
        lemma_varint_groups_shift(pre, rest, q, (m - 1) as nat);
        assert((pre + rest)[pre.len() + q + m - 1] == rest[q + m - 1]);
    }
}

proof fn lemma_varint_read_from_shift(pre: Seq<u8>, rest: Seq<u8>, q: int, k: nat)
    requires
        0 <= q,
    ensures
        varint_read_from(pre + rest, pre.len() + q, k) == read_shifted(
            varint_read_from(rest, q, k),
            pre.len() as int,
        ),
    decreases 5 - k,
{
    if q + k < rest.len() && k < 5 {
        assert((pre + rest)[pre.len() + q + k] == rest[q + k]);
        if rest[q + k] < 128 {
            lemma_varint_groups_shift(pre, rest, q, k + 1);
        } else {
            lemma_varint_read_from_shift(pre, rest, q, k + 1);
        }
    }
}

/// Reading a varint after some bytes `pre` reads what the same varint gives
/// on its own: the bytes before it play no part.
pub proof fn lemma_varint_read_shift(pre: Seq<u8>, rest: Seq<u8>, q: int)
    requires
        0 <= q,
    ensures
        varint_read(pre + rest, pre.len() + q) == read_shifted(varint_read(rest, q), pre.len() as int),
{
    lemma_varint_read_from_shift(pre, rest, q, 0);
}

} // verus!
