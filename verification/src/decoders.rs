//! Decoders for the values and levels of Parquet data pages: plain 64-bit
//! integers, the RLE / bit-packed hybrid encoding of levels, and
//! dictionary indices.
//!
//! Each decoder is specified by a spec function that walks the bytes the way
//! the format reads; the outcome `Panics` marks inputs on which the decoder
//! would overflow a shift or an allocation, and those inputs are excluded by
//! the decoders' `requires`.

use vstd::prelude::*;
use vstd::arithmetic::power2::pow2;
use crate::errors::{
    decimal, eof_message, push_decimal, push_signed_decimal, push_str, signed_decimal, unexpected_eof,
    ParquetDemoError,
};
use crate::format::{PageCodec, Encoding, PhysicalType};
use byteorder::ByteOrder;
use crate::varint::{
    bytes_agree, lemma_varint_or_group, lemma_varint_read_agree, lemma_varint_read_bounds,
    lemma_varint_read_shift, lemma_varint_roundtrip, pow128, read_shifted, varint_encoding,
    varint_groups, varint_read, varint_read_from, VarintRead,
};

verus! {

/// Why a decoder gives up.
pub enum Fault {
    /// The input ended early.
    Eof,
    /// A decoder error with the given message.
    Decode(Seq<char>),
}

/// The outcome of a decoder on given input.
pub enum Decoded<T> {
    Done(T),
    Fails(Fault),
    Panics,
}

/// Whether `e` is the error that the fault `f` is reported as.
pub open spec fn reports(e: ParquetDemoError, f: Fault) -> bool {
    match f {
        Fault::Eof => e matches ParquetDemoError::Io(m) && m@ == eof_message(),
        Fault::Decode(msg) => e matches ParquetDemoError::Decode(m) && m@ == msg,
    }
}

/// Reads one unsigned varint (at most five bytes) at `*pos`, advancing past
/// it; `None` where a sixth byte would be shifted past 32 bits.
pub fn read_varint(data: &[u8], pos: &mut usize) -> (r: Option<Result<u32, ParquetDemoError>>)
    requires
        *old(pos) <= data.len(),
    ensures
        match varint_read(data@, *old(pos) as int) {
            VarintRead::Value { value, next } => r matches Some(Ok(v)) && v == value
                && *final(pos) == next,
            VarintRead::Eof => r matches Some(Err(e)) && reports(e, Fault::Eof) && *final(pos)
                == data.len(),
            VarintRead::TooLong => r is None,
        },
{
    let ghost p0 = *pos as int;
    let ghost mut k: nat = 0;
    let mut result: u32 = 0;
    let mut shift: u32 = 0;
    assert(pow128(0) == 1);
    loop
        invariant
            p0 == *old(pos),
            0 <= p0 <= *pos <= data.len(),
            *pos == p0 + k,
            k <= 5,
            shift == 7 * k,
            result as nat == varint_groups(data@, p0, k) % 0x1_0000_0000,
            k <= 4 ==> varint_groups(data@, p0, k) < pow128(k),
            varint_read_from(data@, p0, k) == varint_read(data@, p0),
        decreases data.len() - *pos,
    {
        if *pos >= data.len() {
            return Some(Err(unexpected_eof()));
        }
        let byte = data[*pos];
        *pos = *pos + 1;
        if shift > 28 {
            return None;
        }
        proof {
            reveal_with_fuel(pow128, 5);
            assert(pow128(k) <= 0x1000_0000);
            lemma_varint_or_group(result, byte, k);
        }
        let ghost before = result;
        result = result | (((byte & 0x7F) as u32) << shift);
        assert(varint_groups(data@, p0, k + 1) == before + (byte % 128) as nat * pow128(k));
        if byte & 0x80 == 0 {
            assert(byte & 0x80 == 0 ==> byte < 128) by (bit_vector);
            return Some(Ok(result));
        }
        assert(byte & 0x80 != 0 ==> byte >= 128) by (bit_vector);
        shift = shift + 7;
        proof {
            k = k + 1;
        }
    }
}

/// What reading one value of `bit_width` bits gives.
pub enum BitsRead {
    Value { value: u8, next: int },
    Eof,
    Panics,
}

/// One level value: nothing read for width 0; otherwise one byte, kept
/// whole for width 1 and masked to its low `bit_width` bits for widths 2..7.
/// A width of 8 or more overflows the mask.
pub open spec fn bits_read(data: Seq<u8>, pos: int, bit_width: u8) -> BitsRead {
    if bit_width == 0 {
        BitsRead::Value { value: 0, next: pos }
    } else if pos >= data.len() {
        BitsRead::Eof
    } else if bit_width == 1 {
        BitsRead::Value { value: data[pos], next: pos + 1 }
    } else if bit_width >= 8 {
        BitsRead::Panics
    } else {
        BitsRead::Value { value: (data[pos] as nat % pow2(bit_width as nat)) as u8, next: pos + 1 }
    }
}

/// Reads one level value of `bit_width` bits at `*pos`; `None` where the
/// mask for the width would overflow.
fn read_bits(data: &[u8], pos: &mut usize, bit_width: u8) -> (r: Option<Result<u8, ParquetDemoError>>)
    requires
        *old(pos) <= data.len(),
    ensures
        match bits_read(data@, *old(pos) as int, bit_width) {
            BitsRead::Value { value, next } => r matches Some(Ok(v)) && v == value && *final(pos)
                == next,
            BitsRead::Eof => r matches Some(Err(e)) && reports(e, Fault::Eof) && *final(pos)
                == *old(pos),
            BitsRead::Panics => r is None,
        },
{
    if bit_width == 0 {
        return Some(Ok(0));
    }
    if *pos >= data.len() {
        return Some(Err(unexpected_eof()));
    }
    let byte = data[*pos];
    *pos = *pos + 1;
    if bit_width == 1 {
        Some(Ok(byte))
    } else if bit_width >= 8 {
        None
    } else {
        proof {
            vstd::arithmetic::power2::lemma2_to64();
            vstd::arithmetic::power2::lemma_pow2_strictly_increases(bit_width as nat, 8);
            vstd::bits::lemma_u8_shl_is_mul(1, bit_width);
        }
        assert(bit_width < 8 ==> byte & (((1u8 << bit_width) - 1) as u8) == byte % (1u8 << bit_width))
            by (bit_vector);
        Some(Ok(byte & ((1 << bit_width) - 1)))
    }
}

/// The smaller of two numbers.
pub open spec fn min_nat(a: nat, b: nat) -> nat {
    if a <= b {
        a
    } else {
        b
    }
}

/// The first `n` values of `width` bits packed back to back, lowest bits
/// first, in `bytes`.
pub open spec fn unpacked_levels(bytes: Seq<u8>, width: nat, n: nat) -> Seq<u8> {
    Seq::new(n, |j: int| packed_value(bytes, j * width, width) as u8)
}

/// Decoding the RLE / bit-packed hybrid from `pos` until `max` values are
/// held: each run starts with a varint header; an even header `2n` is a run
/// of `n` copies of one value (held in one byte), an odd header `2g + 1` is
/// `8g` values of `bit_width` bits packed lowest bits first into
/// `g * bit_width` bytes.  Values past `max` are not taken; widths of 8 or
/// more overflow the decoder's byte-sized values.
pub open spec fn hybrid_from(data: Seq<u8>, pos: int, bit_width: u8, max: nat, acc: Seq<u8>) -> Decoded<
    (Seq<u8>, int),
>
    decreases data.len() - pos,
{
    if acc.len() >= max {
        Decoded::Done((acc, pos))
    } else {
        match varint_read(data, pos) {
            VarintRead::Eof => Decoded::Fails(Fault::Eof),
            VarintRead::TooLong => Decoded::Panics,
            VarintRead::Value { value: header, next: p1 } => {
                let room = (max - acc.len()) as nat;
                if header % 2 == 0 {
                    match bits_read(data, p1, bit_width) {
                        BitsRead::Value { value, next: p2 } => {
                            if pos < p2 <= data.len() {
                                let n = min_nat((header / 2) as nat, room);
                                hybrid_from(
                                    data,
                                    p2,
                                    bit_width,
                                    max,
                                    acc + Seq::new(n, |i: int| value),
                                )
                            } else {
                                Decoded::Panics
                            }
                        },
                        BitsRead::Eof => Decoded::Fails(Fault::Eof),
                        BitsRead::Panics => Decoded::Panics,
                    }
                } else {
                    let n = min_nat(((header / 2) * 8) as nat, room);
                    let nbytes = ((header / 2) * bit_width) as nat;
                    if bit_width >= 8 && n > 0 {
                        Decoded::Panics
                    } else if p1 + nbytes > data.len() {
                        Decoded::Fails(Fault::Eof)
                    } else if pos < p1 + nbytes {
                        hybrid_from(
                            data,
                            p1 + nbytes,
                            bit_width,
                            max,
                            acc + unpacked_levels(data.subrange(p1, p1 + nbytes), bit_width as nat, n),
                        )
                    } else {
                        Decoded::Panics
                    }
                }
            },
        }
    }
}

/// The RLE / bit-packed hybrid decoding of `data` into `max_values` values,
/// with the number of bytes it took.
pub open spec fn hybrid_decode(data: Seq<u8>, bit_width: u8, max_values: nat) -> Decoded<
    (Seq<u8>, int),
> {
    hybrid_from(data, 0, bit_width, max_values, Seq::empty())
}

/// The hybrid decoding ends within the input.
pub proof fn lemma_hybrid_bounds(data: Seq<u8>, pos: int, bit_width: u8, max: nat, acc: Seq<u8>)
    requires
        0 <= pos <= data.len(),
    ensures
        hybrid_from(data, pos, bit_width, max, acc) matches Decoded::Done((_, p)) ==> pos <= p
            <= data.len(),
    decreases data.len() - pos,
{
    if acc.len() < max {
        lemma_varint_read_bounds(data, pos);
        match varint_read(data, pos) {
            VarintRead::Value { value: header, next: p1 } => {
                let room = (max - acc.len()) as nat;
                if header % 2 == 0 {
                    match bits_read(data, p1, bit_width) {
                        BitsRead::Value { value, next: p2 } => {
                            if pos < p2 <= data.len() {
                                let n = min_nat((header / 2) as nat, room);
                                lemma_hybrid_bounds(
                                    data,
                                    p2,
                                    bit_width,
                                    max,
                                    acc + Seq::new(n, |i: int| value),
                                );
                            }
                        },
                        _ => {},
                    }
                } else {
                    let n = min_nat(((header / 2) * 8) as nat, room);
                    let nbytes = ((header / 2) * bit_width) as nat;
                    if !(bit_width >= 8 && n > 0) && p1 + nbytes <= data.len() && pos < p1 + nbytes {
                        lemma_hybrid_bounds(
                            data,
                            p1 + nbytes,
                            bit_width,
                            max,
                            acc + unpacked_levels(data.subrange(p1, p1 + nbytes), bit_width as nat, n),
                        );
                    }
                }
            },
            _ => {},
        }
    }
}

/// The hybrid decoding of levels; `None` where the decoding would overflow.
pub(crate) fn decode_hybrid_levels(data: &[u8], bit_width: u8, max_values: usize) -> (r: Option<
    Result<(Vec<u8>, usize), ParquetDemoError>,
>)
    ensures
        hybrid_decode(data@, bit_width, max_values as nat) is Panics <==> r is None,
        hybrid_decode(data@, bit_width, max_values as nat) matches Decoded::Done((vals, used))
            ==> r matches Some(Ok((v, c))) && v@ == vals && c == used,
        hybrid_decode(data@, bit_width, max_values as nat) matches Decoded::Fails(f) ==> r matches Some(
            Err(e),
        ) && reports(e, f),
{
    let ghost whole = hybrid_decode(data@, bit_width, max_values as nat);
    let mut pos: usize = 0;
    let mut result: Vec<u8> = Vec::new();
    while result.len() < max_values
        invariant
            0 <= pos <= data.len(),
            hybrid_from(data@, pos as int, bit_width, max_values as nat, result@) == whole,
            whole == hybrid_decode(data@, bit_width, max_values as nat),
        decreases data.len() - pos,
    {
        let ghost pos0 = pos as int;
        let ghost acc = result@;
        proof {
            lemma_varint_read_bounds(data@, pos0);
        }
        let header = match read_varint(data, &mut pos) {
            None => {
                return None;
            },
            Some(Ok(h)) => h,
            Some(Err(e)) => {
                assert(whole == Decoded::<(Seq<u8>, int)>::Fails(Fault::Eof));
                return Some(Err(e));
            },
        };
        let ghost p1 = pos as int;
        let ghost room = (max_values - acc.len()) as nat;
        assert(header & 1 == 0 <==> header % 2 == 0) by (bit_vector);
        assert(header >> 1 == header / 2) by (bit_vector);
        if header & 1 == 0 {
            let run_length = (header >> 1) as usize;
            let value = if bit_width > 0 {
                match read_bits(data, &mut pos, bit_width) {
                    None => {
                        return None;
                    },
                    Some(Ok(v)) => v,
                    Some(Err(e)) => {
                        assert(whole == Decoded::<(Seq<u8>, int)>::Fails(Fault::Eof));
                        return Some(Err(e));
                    },
                }
            } else {
                0
            };
            let mut i: usize = 0;
            while i < run_length && result.len() < max_values
                invariant
                    i <= run_length,
                    result@ == acc + Seq::new(i as nat, |j: int| value),
                    acc.len() < max_values,
                    result.len() <= max_values,
                decreases run_length - i,
            {
                result.push(value);
                assert(result@ =~= acc + Seq::new((i + 1) as nat, |j: int| value));
                i = i + 1;
            }
            assert(i == min_nat(run_length as nat, room));
        } else {
            let groups = (header >> 1) as u64;
            let want: u64 = if groups * 8 < (max_values - result.len()) as u64 {
                groups * 8
            } else {
                (max_values - result.len()) as u64
            };
            assert(want == min_nat((groups * 8) as nat, room));
            if bit_width >= 8 && want > 0 {
                return None;
            }
            assert(header >> 1 <= 0x7FFF_FFFFu32) by (bit_vector);
            assert(groups * bit_width <= 0x8000_0000 * 255) by (nonlinear_arith)
                requires
                    groups <= 0x8000_0000,
                    bit_width <= 255,
            ;
            let nbytes: u64 = groups * bit_width as u64;
            if nbytes > (data.len() - pos) as u64 {
                assert(whole == Decoded::<(Seq<u8>, int)>::Fails(Fault::Eof));
                return Some(Err(unexpected_eof()));
            }
            let packed = vstd::slice::slice_subrange(data, pos, pos + nbytes as usize);
            let mut j: u64 = 0;
            while j < want
                invariant
                    j <= want <= groups * 8,
                    bit_width < 8 || want == 0,
                    nbytes == groups * bit_width,
                    packed@.len() == nbytes,
                    groups <= 0x8000_0000,
                    result@ == acc + unpacked_levels(packed@, bit_width as nat, j as nat),
                decreases want - j,
            {
                proof {
                    assert((j + 1) * bit_width <= want * bit_width) by (nonlinear_arith)
                        requires
                            j + 1 <= want,
                    ;
                    assert(want * bit_width <= groups * 8 * bit_width) by (nonlinear_arith)
                        requires
                            want <= groups * 8,
                    ;
                    assert(j * bit_width + bit_width == (j + 1) * bit_width) by (nonlinear_arith);
                    assert(groups * 8 * bit_width == nbytes * 8) by (nonlinear_arith)
                        requires
                            nbytes == groups * bit_width,
                    ;
                    assert(j * bit_width <= 0x8000_0000 * 8 * 8) by (nonlinear_arith)
                        requires
                            j <= groups * 8,
                            groups <= 0x8000_0000,
                            bit_width < 8,
                    ;
                }
                let v = unpack_value(packed, j * bit_width as u64, bit_width);
                proof {
                    vstd::arithmetic::power2::lemma2_to64();
                    vstd::arithmetic::power2::lemma_pow2_strictly_increases(bit_width as nat, 8);
                }
                result.push(v as u8);
                assert(result@ =~= acc + unpacked_levels(packed@, bit_width as nat, (j + 1) as nat));
                j = j + 1;
            }
            pos = pos + nbytes as usize;
            assert(packed@ == data@.subrange(p1, p1 + nbytes));
        }
    }
    Some(Ok((result, pos)))
}

/// Decodes `max_values` levels of `bit_width` bits stored in the RLE /
/// bit-packed hybrid encoding, and tells how many bytes of `data` they took.
pub fn decode_rle_bit_packed_hybrid_with_consumed(
    data: &[u8],
    bit_width: u8,
    max_values: usize,
) -> (r: Result<(Vec<u8>, usize), ParquetDemoError>)
    requires
        !(hybrid_decode(data@, bit_width, max_values as nat) is Panics),
    ensures
        hybrid_decode(data@, bit_width, max_values as nat) matches Decoded::Done((vals, used))
            ==> r matches Ok((v, c)) && v@ == vals && c == used,
        hybrid_decode(data@, bit_width, max_values as nat) matches Decoded::Fails(f) ==> r matches Err(
            e,
        ) && reports(e, f),
        r matches Ok((v, c)) ==> v@.len() == max_values && c <= data.len(),
        r is Err ==> (r matches Err(e) && reports(e, Fault::Eof)),
        max_values == 0 ==> (r matches Ok((v, c)) && v@.len() == 0 && c == 0),
{
    proof {
        lemma_hybrid_len(data@, 0, bit_width, max_values as nat, Seq::empty());
        lemma_hybrid_bounds(data@, 0, bit_width, max_values as nat, Seq::empty());
        lemma_hybrid_fails_at_end(data@, 0, bit_width, max_values as nat, Seq::empty());
    }
    match decode_hybrid_levels(data, bit_width, max_values) {
        Some(r) => r,
        None => Err(unexpected_eof()),
    }
}

/// Bit `i` of a byte sequence, counting from the least significant bit of
/// the first byte.
pub open spec fn bit_at(bytes: Seq<u8>, i: int) -> nat {
    (bytes[i / 8] as nat / pow2((i % 8) as nat)) % 2
}

/// The number whose `width` bits, least significant first, are the bits of
/// `bytes` from bit `start`.
pub open spec fn packed_value(bytes: Seq<u8>, start: int, width: nat) -> nat
    decreases width,
{
    if width == 0 {
        0
    } else {
        packed_value(bytes, start, (width - 1) as nat) + bit_at(bytes, start + width - 1) * pow2(
            (width - 1) as nat,
        )
    }
}

/// The first `n` values of `width` bits packed back to back in `bytes`.
pub open spec fn unpacked(bytes: Seq<u8>, width: nat, n: nat) -> Seq<u32> {
    Seq::new(n, |j: int| packed_value(bytes, j * width, width) as u32)
}

/// The message of a dictionary run whose bit width is over 8.
pub open spec fn wide_dictionary_message() -> Seq<char> {
    "Dictionary bit width > 8 not supported"@
}

/// Number of bytes that hold `bits` bits.
pub open spec fn bytes_for_bits(bits: nat) -> nat {
    (bits + 7) / 8
}

/// The value of an RLE run of dictionary indices and the position after it:
/// nothing is read for width 0; otherwise one byte, masked to `bit_width`
/// bits, or 0 when the input has ended.
pub open spec fn dictionary_run_value(data: Seq<u8>, p: int, bit_width: u8) -> (u32, int) {
    if bit_width == 0 {
        (0, p)
    } else if p < data.len() {
        ((data[p] as nat % pow2(bit_width as nat)) as u32, p + 1)
    } else {
        (0, p)
    }
}

/// Decoding dictionary indices from `pos` until `count` are held.  Runs are
/// as in the hybrid encoding; a header that cannot be read ends the
/// decoding with the indices so far.  An RLE run of width over 8 is an
/// error; a bit-packed run takes `8g` values (at most the number still
/// wanted) packed in whole bytes.
pub open spec fn dictionary_from(
    data: Seq<u8>,
    pos: int,
    bit_width: u8,
    count: nat,
    acc: Seq<u32>,
) -> Decoded<Seq<u32>>
    decreases data.len() - pos,
{
    if acc.len() >= count {
        Decoded::Done(acc)
    } else {
        match varint_read(data, pos) {
            VarintRead::Eof => Decoded::Done(acc),
            VarintRead::TooLong => Decoded::Panics,
            VarintRead::Value { value: header, next: p1 } => {
                let room = (count - acc.len()) as nat;
                if header % 2 == 0 {
                    if bit_width > 8 {
                        Decoded::Fails(Fault::Decode(wide_dictionary_message()))
                    } else {
                        let (v, p2) = dictionary_run_value(data, p1, bit_width);
                        if pos < p2 <= data.len() {
                            let n = min_nat((header / 2) as nat, room);
                            dictionary_from(
                                data,
                                p2,
                                bit_width,
                                count,
                                acc + Seq::new(n, |i: int| v),
                            )
                        } else {
                            Decoded::Panics
                        }
                    }
                } else {
                    let n = min_nat(((header / 2) * 8) as nat, room);
                    let nbytes = bytes_for_bits(n * bit_width as nat);
                    if p1 + nbytes > data.len() {
                        Decoded::Fails(Fault::Eof)
                    } else if bit_width > 32 && n > 0 {
                        Decoded::Panics
                    } else if pos < p1 + nbytes <= data.len() {
                        dictionary_from(
                            data,
                            p1 + nbytes,
                            bit_width,
                            count,
                            acc + unpacked(data.subrange(p1, p1 + nbytes), bit_width as nat, n),
                        )
                    } else {
                        Decoded::Panics
                    }
                }
            },
        }
    }
}

/// The dictionary indices that `decode_rle_dictionary` gives for `data`.
pub open spec fn dictionary_decode(data: Seq<u8>, count: nat, bit_width: u8) -> Decoded<Seq<u32>> {
    dictionary_from(data, 0, bit_width, count, Seq::empty())
}

/// Reads the value of `bit_width` bits at bit `start` of `packed`.
fn unpack_value(packed: &[u8], start: u64, bit_width: u8) -> (v: u32)
    requires
        bit_width <= 32,
        start + bit_width <= packed.len() * 8,
        start + bit_width <= u64::MAX,
    ensures
        v == packed_value(packed@, start as int, bit_width as nat),
        v < pow2(bit_width as nat),
{
    let mut value: u32 = 0;
    let mut bit_idx: u8 = 0;
    proof {
        vstd::arithmetic::power2::lemma2_to64();
    }
    while bit_idx < bit_width
        invariant
            bit_idx <= bit_width <= 32,
            start + bit_width <= packed.len() * 8,
            start + bit_width <= u64::MAX,
            value == packed_value(packed@, start as int, bit_idx as nat),
            value < pow2(bit_idx as nat),
        decreases bit_width - bit_idx,
    {
        let total_bit_pos = start + bit_idx as u64;
        let byte_pos = total_bit_pos / 8;
        let bit_pos_in_byte = total_bit_pos % 8;
        assert(byte_pos < packed.len());
        if byte_pos < packed.len() as u64 {
            let byte = packed[byte_pos as usize];
            let bit = (byte >> (bit_pos_in_byte as u8)) & 1;
            assert(bit <= 1) by (bit_vector)
                requires
                    bit == (byte >> (bit_pos_in_byte as u8)) & 1,
            ;
            proof {
                let k = bit_pos_in_byte as u8;
                vstd::bits::lemma_u8_shr_is_div(byte, k);
                assert((byte >> k) & 1 == (byte >> k) % 2) by (bit_vector);
                assert(bit == bit_at(packed@, total_bit_pos as int));
                vstd::arithmetic::power2::lemma2_to64();
                vstd::arithmetic::power2::lemma_pow2_strictly_increases(bit_idx as nat, 32);
                vstd::bits::lemma_u32_shl_is_mul(1, bit_idx as u32);
                let pb = pow2(bit_idx as nat);
                assert((bit as u32) * pb <= pb) by (nonlinear_arith)
                    requires
                        bit <= 1,
                        pb >= 0,
                ;
                vstd::bits::lemma_u32_shl_is_mul(bit as u32, bit_idx as u32);
                let b = bit_idx as u32;
                let bb = bit as u32;
                assert(b < 32 && value < (1u32 << b) && bb <= 1 ==> value | (bb << b) == value + (bb
                    << b)) by (bit_vector);
                vstd::arithmetic::power2::lemma_pow2_unfold((bit_idx + 1) as nat);
            }
            value = value | ((bit as u32) << bit_idx);
        }
        bit_idx = bit_idx + 1;
    }
    value
}

/// The decoding of dictionary indices; `None` where it would overflow.
pub(crate) fn decode_dictionary_indices(data: &[u8], count: usize, bit_width: u8) -> (r: Option<
    Result<Vec<u32>, ParquetDemoError>,
>)
    ensures
        dictionary_decode(data@, count as nat, bit_width) is Panics <==> r is None,
        dictionary_decode(data@, count as nat, bit_width) matches Decoded::Done(vals) ==> r matches Some(
            Ok(v),
        ) && v@ == vals,
        dictionary_decode(data@, count as nat, bit_width) matches Decoded::Fails(f) ==> r matches Some(
            Err(e),
        ) && reports(e, f),
{
    let ghost whole = dictionary_decode(data@, count as nat, bit_width);
    let mut pos: usize = 0;
    let mut result: Vec<u32> = Vec::new();
    while result.len() < count
        invariant
            0 <= pos <= data.len(),
            dictionary_from(data@, pos as int, bit_width, count as nat, result@) == whole,
            whole == dictionary_decode(data@, count as nat, bit_width),
        ensures
            whole == Decoded::Done(result@),
        decreases data.len() - pos,
    {
        let ghost pos0 = pos as int;
        let ghost acc = result@;
        proof {
            lemma_varint_read_bounds(data@, pos0);
        }
        let header = match read_varint(data, &mut pos) {
            None => {
                return None;
            },
            Some(Ok(h)) => h,
            Some(Err(_)) => {
                break;
            },
        };
        let ghost p1 = pos as int;
        let ghost room = (count - acc.len()) as nat;
        assert(header & 1 == 0 <==> header % 2 == 0) by (bit_vector);
        assert(header >> 1 == header / 2) by (bit_vector);
        if header & 1 == 0 {
            let run_length = (header >> 1) as usize;
            let value = if bit_width <= 8 {
                let bytes_needed = (bit_width as usize + 7) / 8;
                let mut val = 0u32;
                let mut i: usize = 0;
                while i < bytes_needed
                    invariant
                        bytes_needed <= 1,
                        i <= bytes_needed,
                        p1 <= pos <= data.len(),
                        i == 0 ==> val == 0 && pos == p1,
                        i == 1 ==> (p1 < data.len() ==> val == data@[p1] && pos == p1 + 1) && (p1
                            >= data.len() ==> val == 0 && pos == p1),
                    decreases bytes_needed - i,
                {
                    if pos < data.len() {
                        let byte = data[pos];
                        pos = pos + 1;
                        assert(i == 0);
                        assert(0u32 | ((byte as u32) << 0u32) == byte as u32) by (bit_vector);
                        val = val | ((byte as u32) << ((i * 8) as u32));
                    }
                    i = i + 1;
                }
                proof {
                    vstd::arithmetic::power2::lemma2_to64();
                    vstd::arithmetic::power2::lemma_pow2_strictly_increases(bit_width as nat, 9);
                    vstd::bits::lemma_u32_shl_is_mul(1, bit_width as u32);
                    assert(bit_width <= 8 && val < 256 ==> val & (((1u32 << (bit_width as u32)) - 1)
                        as u32) == val % (1u32 << (bit_width as u32))) by (bit_vector);
                }
                val & ((1 << bit_width) - 1)
            } else {
                return Some(
                    Err(ParquetDemoError::Decode("Dictionary bit width > 8 not supported".to_string())),
                );
            };
            assert((value, pos as int) == dictionary_run_value(data@, p1, bit_width));
            let mut i: usize = 0;
            while i < run_length
                invariant_except_break
                    result.len() < count,
                invariant
                    i <= run_length,
                    result@ == acc + Seq::new(i as nat, |j: int| value),
                    acc.len() < count,
                    result.len() <= count,
                    result.len() == acc.len() + i,
                ensures
                    result@ == acc + Seq::new(i as nat, |j: int| value),
                    i == min_nat(run_length as nat, (count - acc.len()) as nat),
                decreases run_length - i,
            {
                result.push(value);
                assert(result@ =~= acc + Seq::new((i + 1) as nat, |j: int| value));
                i = i + 1;
                if result.len() >= count {
                    break;
                }
            }
            assert(dictionary_from(data@, pos0, bit_width, count as nat, acc) == dictionary_from(
                data@,
                pos as int,
                bit_width,
                count as nat,
                result@,
            ));
        } else {
            let count_groups = (header >> 1) as u64;
            assert(count_groups * 8 <= 0x4_0000_0000);
            let remaining = count - result.len();
            let values_to_read: usize = if count_groups * 8 < remaining as u64 {
                (count_groups * 8) as usize
            } else {
                remaining
            };
            assert(values_to_read == min_nat((count_groups * 8) as nat, room));
            assert(values_to_read * bit_width <= 0x4_0000_0000 * 255) by (nonlinear_arith)
                requires
                    values_to_read <= 0x4_0000_0000,
                    bit_width <= 255,
            ;
            let bytes_needed = (values_to_read as u64 * bit_width as u64 + 7) / 8;
            if bytes_needed > (data.len() - pos) as u64 {
                return Some(Err(unexpected_eof()));
            }
            if bit_width > 32 && values_to_read > 0 {
                return None;
            }
            let packed = &data[pos..pos + bytes_needed as usize];
            pos = pos + bytes_needed as usize;
            let mut bit_offset: u64 = 0;
            let mut j: usize = 0;
            while j < values_to_read
                invariant
                    j <= values_to_read <= room,
                    room == count - acc.len(),
                    result@ == acc + unpacked(packed@, bit_width as nat, j as nat),
                    bit_offset == j * bit_width,
                    values_to_read * bit_width <= packed.len() * 8,
                    values_to_read <= 0x4_0000_0000,
                    bit_width > 32 ==> values_to_read == 0,
                ensures
                    j == values_to_read,
                    result@ == acc + unpacked(packed@, bit_width as nat, j as nat),
                decreases values_to_read - j,
            {
                if result.len() >= count {
                    break;
                }
                proof {
                    assert((j + 1) * bit_width <= values_to_read * bit_width) by (nonlinear_arith)
                        requires
                            j + 1 <= values_to_read,
                    ;
                    assert(values_to_read * bit_width <= 0x4_0000_0000 * 255) by (nonlinear_arith)
                        requires
                            values_to_read <= 0x4_0000_0000,
                            bit_width <= 255,
                    ;
                    assert((j + 1) * bit_width == j * bit_width + bit_width) by (nonlinear_arith);
                }
                let value = unpack_value(packed, bit_offset, bit_width);
                let ghost before = result@;
                result.push(value);
                assert(result@ =~= acc + unpacked(packed@, bit_width as nat, (j + 1) as nat));
                bit_offset = bit_offset + bit_width as u64;
                j = j + 1;
            }
            assert(packed@ == data@.subrange(p1, p1 + bytes_needed));
            assert(dictionary_from(data@, pos0, bit_width, count as nat, acc) == dictionary_from(
                data@,
                pos as int,
                bit_width,
                count as nat,
                result@,
            ));
        }
    }
    Some(Ok(result))
}

/// Decodes `count` dictionary indices of `bit_width` bits stored in the RLE /
/// bit-packed hybrid encoding.  Decoding stops early, with the indices read
/// so far, where no further run header can be read.
pub fn decode_rle_dictionary(data: &[u8], count: usize, bit_width: u8) -> (r: Result<
    Vec<u32>,
    ParquetDemoError,
>)
    requires
        !(dictionary_decode(data@, count as nat, bit_width) is Panics),
    ensures
        dictionary_decode(data@, count as nat, bit_width) matches Decoded::Done(vals) ==> r matches Ok(
            v,
        ) && v@ == vals,
        dictionary_decode(data@, count as nat, bit_width) matches Decoded::Fails(f) ==> r matches Err(
            e,
        ) && reports(e, f),
        r matches Ok(v) ==> v@.len() <= count,
        r matches Ok(v) ==> forall|i: int| 0 <= i < v@.len() ==> (#[trigger] v@[i] as nat) < pow2(
            bit_width as nat,
        ),
{
    proof {
        lemma_dictionary_len(data@, 0, bit_width, count as nat, Seq::empty());
        lemma_dictionary_bound(data@, 0, bit_width, count as nat, Seq::empty());
    }
    match decode_dictionary_indices(data, count, bit_width) {
        Some(r) => r,
        None => Err(unexpected_eof()),
    }
}

/// The number whose little-endian bytes are `bytes`.
pub open spec fn le_value(bytes: Seq<u8>) -> nat
    decreases bytes.len(),
{
    if bytes.len() == 0 {
        0
    } else {
        bytes[0] as nat + 256 * le_value(bytes.drop_first())
    }
}

/// The eight bytes from `pos` read as a little-endian two's-complement i64.
pub open spec fn le_i64_at(data: Seq<u8>, pos: int) -> i64 {
    le_value(data.subrange(pos, pos + 8)) as i64
}

/// `byteorder`'s `LittleEndian::read_i64`: the first eight bytes of `buf`
/// read as a little-endian two's-complement integer.  It panics on fewer
/// than eight bytes.
#[verifier::external_body]
fn le_read_i64(buf: &[u8]) -> (v: i64)
    requires
        buf.len() >= 8,
    ensures
        v == le_i64_at(buf@, 0),
{
    byteorder::LittleEndian::read_i64(buf)
}

/// Plain-encoded i64 values: `count` little-endian integers of eight bytes.
pub open spec fn plain_int64_decode(data: Seq<u8>, count: nat) -> Decoded<Seq<i64>> {
    if count * 8 > isize::MAX {
        Decoded::Panics
    } else if data.len() >= count * 8 {
        Decoded::Done(Seq::new(count, |i: int| le_i64_at(data, 8 * i)))
    } else {
        Decoded::Fails(Fault::Eof)
    }
}

/// Decodes `count` plain-encoded i64 values from the start of `data`.
pub fn decode_plain_int64(data: &[u8], count: usize) -> (r: Result<Vec<i64>, ParquetDemoError>)
    requires
        count * 8 <= isize::MAX,
    ensures
        plain_int64_decode(data@, count as nat) matches Decoded::Done(vals) ==> r matches Ok(v)
            && v@ == vals,
        plain_int64_decode(data@, count as nat) matches Decoded::Fails(f) ==> r matches Err(e)
            && reports(e, f),
{
    let mut values: Vec<i64> = Vec::with_capacity(count);
    let mut pos: usize = 0;
    let mut i: usize = 0;
    while i < count
        invariant
            i <= count,
            count * 8 <= isize::MAX,
            pos == 8 * i,
            pos <= data.len(),
            values@ == Seq::new(i as nat, |j: int| le_i64_at(data@, 8 * j)),
        decreases count - i,
    {
        if pos > data.len() || data.len() - pos < 8 {
            return Err(unexpected_eof());
        }
        let value = le_read_i64(&data[pos..pos + 8]);
        assert(data@.subrange(pos as int, pos + 8).subrange(0, 8) =~= data@.subrange(
            pos as int,
            pos + 8,
        ));
        values.push(value);
        assert(values@ =~= Seq::new((i + 1) as nat, |j: int| le_i64_at(data@, 8 * j)));
        pos = pos + 8;
        i = i + 1;
    }
    Ok(values)
}

/// Decoded values of a page.
#[derive(Debug, Clone)]
pub enum PageValues {
    Int64(Vec<i64>),
    Dictionary(Vec<i64>),
    DictionaryIndices(Vec<u32>),
}

/// The values of a page as sequences.
pub enum PageValuesView {
    Int64(Seq<i64>),
    Dictionary(Seq<i64>),
    DictionaryIndices(Seq<u32>),
}

impl View for PageValues {
    type V = PageValuesView;

    open spec fn view(&self) -> PageValuesView {
        match self {
            PageValues::Int64(v) => PageValuesView::Int64(v@),
            PageValues::Dictionary(v) => PageValuesView::Dictionary(v@),
            PageValues::DictionaryIndices(v) => PageValuesView::DictionaryIndices(v@),
        }
    }
}

impl PageValues {
    /// The number of values held.
    pub fn len(&self) -> (n: usize)
        ensures
            n == match self@ {
                PageValuesView::Int64(v) => v.len(),
                PageValuesView::Dictionary(v) => v.len(),
                PageValuesView::DictionaryIndices(v) => v.len(),
            },
    {
        match self {
            PageValues::Int64(v) => v.len(),
            PageValues::Dictionary(v) => v.len(),
            PageValues::DictionaryIndices(v) => v.len(),
        }
    }
}

/// The message for a type and encoding that have no decoder.
pub open spec fn unimplemented_message(t: PhysicalType, e: Encoding) -> Seq<char> {
    "Decoding not implemented for type "@ + t.spec_name() + " with encoding "@ + e.spec_name()
}

/// What decoding a page of `num_values` values of type `t` in encoding `e`
/// gives: plain i64 values; or, for RLE-dictionary i64 pages, the index bit
/// width in the first byte and the indices after it (no indices for an
/// empty page).  Other combinations have no decoder.
pub open spec fn page_decode(data: Seq<u8>, t: PhysicalType, e: Encoding, num_values: i32) -> Decoded<
    PageValuesView,
> {
    if t == PhysicalType::Int64 && e == Encoding::Plain {
        match plain_int64_decode(data, (num_values as usize) as nat) {
            Decoded::Done(v) => Decoded::Done(PageValuesView::Int64(v)),
            Decoded::Fails(f) => Decoded::Fails(f),
            Decoded::Panics => Decoded::Panics,
        }
    } else if t == PhysicalType::Int64 && e == Encoding::RleDictionary {
        if data.len() == 0 {
            Decoded::Done(PageValuesView::DictionaryIndices(Seq::empty()))
        } else {
            match dictionary_decode(data.drop_first(), (num_values as usize) as nat, data[0]) {
                Decoded::Done(v) => Decoded::Done(PageValuesView::DictionaryIndices(v)),
                Decoded::Fails(f) => Decoded::Fails(f),
                Decoded::Panics => Decoded::Panics,
            }
        }
    } else {
        Decoded::Fails(Fault::Decode(unimplemented_message(t, e)))
    }
}

/// The decoding of a page's values; `None` where it would overflow.
pub(crate) fn decode_page_values(page_data: &[u8], page_type: PhysicalType, encoding: Encoding, num_values: i32) -> (r:
    Option<Result<PageValues, ParquetDemoError>>)
    ensures
        page_decode(page_data@, page_type, encoding, num_values) is Panics <==> r is None,
        page_decode(page_data@, page_type, encoding, num_values) matches Decoded::Done(vals) ==> r matches Some(
            Ok(v),
        ) && v@ == vals,
        page_decode(page_data@, page_type, encoding, num_values) matches Decoded::Fails(f) ==> r matches Some(
            Err(e),
        ) && reports(e, f),
{
    match (page_type, encoding) {
        (PhysicalType::Int64, Encoding::Plain) => {
            let count = num_values as usize;
            if count > usize::MAX / 8 || count * 8 > isize::MAX as usize {
                return None;
            }
            match decode_plain_int64(page_data, count) {
                Ok(values) => Some(Ok(PageValues::Int64(values))),
                Err(e) => Some(Err(e)),
            }
        },
        (PhysicalType::Int64, Encoding::RleDictionary) => {
            if page_data.len() == 0 {
                return Some(Ok(PageValues::DictionaryIndices(Vec::new())));
            }
            let bit_width = page_data[0];
            let rest = &page_data[1..page_data.len()];
            assert(rest@ =~= page_data@.drop_first());
            match decode_dictionary_indices(rest, num_values as usize, bit_width) {
                None => None,
                Some(Ok(indices)) => Some(Ok(PageValues::DictionaryIndices(indices))),
                Some(Err(e)) => Some(Err(e)),
            }
        },
        _ => {
            let mut msg = String::new();
            push_str(&mut msg, "Decoding not implemented for type ");
            push_str(&mut msg, page_type.name());
            push_str(&mut msg, " with encoding ");
            push_str(&mut msg, encoding.name());
            Some(Err(ParquetDemoError::Decode(msg)))
        },
    }
}

/// Decodes the values of a page by type and encoding.
pub fn decode_page_data(
    page_data: &[u8],
    page_type: PhysicalType,
    encoding: Encoding,
    num_values: i32,
) -> (r: Result<PageValues, ParquetDemoError>)
    requires
        !(page_decode(page_data@, page_type, encoding, num_values) is Panics),
    ensures
        page_decode(page_data@, page_type, encoding, num_values) matches Decoded::Done(vals) ==> r matches Ok(
            v,
        ) && v@ == vals,
        page_decode(page_data@, page_type, encoding, num_values) matches Decoded::Fails(f) ==> r matches Err(
            e,
        ) && reports(e, f),
{
    match decode_page_values(page_data, page_type, encoding, num_values) {
        Some(r) => r,
        None => Err(unexpected_eof()),
    }
}

/// What `zstd::decode_all` gives for a stream: the decompressed bytes, or
/// the message of its error when the input is not a valid zstd stream.
pub uninterp spec fn zstd_decoded(data: Seq<u8>) -> Result<Seq<u8>, Seq<char>>;

/// `zstd::decode_all`: decompresses a whole zstd stream; its error is
/// carried as its message.  Its output is a function of the input alone.
#[verifier::external_body]
fn zstd_decode_all(data: &[u8]) -> (r: Result<Vec<u8>, String>)
    ensures
        match r {
            Ok(v) => zstd_decoded(data@) == Ok::<Seq<u8>, Seq<char>>(v@),
            Err(m) => zstd_decoded(data@) == Err::<Seq<u8>, Seq<char>>(m@),
        },
{
    zstd::decode_all(data).map_err(|e| e.to_string())
}

/// The message for a codec without a decompressor.
pub open spec fn codec_unimplemented_message(codec: PageCodec) -> Seq<char> {
    match codec {
        PageCodec::Snappy => "Snappy decompression not implemented"@,
        PageCodec::Gzip => "Gzip decompression not implemented"@,
        PageCodec::Lzo => "LZO decompression not implemented"@,
        PageCodec::Brotli => "Brotli decompression not implemented"@,
        PageCodec::Lz4 => "LZ4 decompression not implemented"@,
        _ => Seq::empty(),
    }
}

/// The message for decompressed data of `got` bytes where `expected` were
/// announced.
pub open spec fn size_mismatch_message(expected: i32, got: nat) -> Seq<char> {
    "Decompressed size mismatch: expected "@ + signed_decimal(expected as int) + ", got "@
        + decimal(got)
}

/// Checks that decompressed page data has the size the page header gives.
pub fn check_decompressed_size(decompressed: Vec<u8>, uncompressed_size: i32) -> (r: Result<
    Vec<u8>,
    ParquetDemoError,
>)
    ensures
        decompressed.len() == uncompressed_size as usize ==> (r matches Ok(v) && v@
            == decompressed@),
        decompressed.len() != uncompressed_size as usize ==> (r matches Err(
            ParquetDemoError::Decode(m),
        ) && m@ == size_mismatch_message(uncompressed_size, decompressed.len() as nat)),
{
    if decompressed.len() != uncompressed_size as usize {
        let mut msg = String::new();
        push_str(&mut msg, "Decompressed size mismatch: expected ");
        push_signed_decimal(&mut msg, uncompressed_size as i64);
        push_str(&mut msg, ", got ");
        push_decimal(&mut msg, decompressed.len() as u64);
        return Err(ParquetDemoError::Decode(msg));
    }
    Ok(decompressed)
}

/// What decompressing page data gives.
pub enum Decompressed {
    Bytes(Seq<u8>),
    /// The codec has no decompressor; the message says which.
    Unimplemented(Seq<char>),
    /// The data is not a valid stream of the codec; the decompressor's
    /// message.
    Invalid(Seq<char>),
    /// The decompressed size differs from the one in the page header; the
    /// message.
    SizeMismatch(Seq<char>),
}

/// Uncompressed data is kept; zstd data is decompressed and must have
/// `size` bytes; other codecs have no decompressor.
pub open spec fn decompress_spec(data: Seq<u8>, codec: PageCodec, size: i32) -> Decompressed {
    match codec {
        PageCodec::Uncompressed => Decompressed::Bytes(data),
        PageCodec::Zstd => match zstd_decoded(data) {
            Ok(d) => if d.len() == size as usize {
                Decompressed::Bytes(d)
            } else {
                Decompressed::SizeMismatch(size_mismatch_message(size, d.len()))
            },
            Err(m) => Decompressed::Invalid(m),
        },
        _ => Decompressed::Unimplemented(codec_unimplemented_message(codec)),
    }
}

/// Decompresses page data by codec: uncompressed data is copied, zstd data
/// is decompressed and must have `uncompressed_size` bytes, other codecs
/// have no decompressor.
pub fn decompress_page(compressed_data: &[u8], codec: PageCodec, uncompressed_size: i32) -> (r:
    Result<Vec<u8>, ParquetDemoError>)
    ensures
        match decompress_spec(compressed_data@, codec, uncompressed_size) {
            Decompressed::Bytes(b) => r matches Ok(v) && v@ == b,
            Decompressed::Unimplemented(m) => r matches Err(ParquetDemoError::Decode(x)) && x@ == m,
            Decompressed::Invalid(m) => r matches Err(ParquetDemoError::Io(x)) && x@ == m,
            Decompressed::SizeMismatch(m) => r matches Err(ParquetDemoError::Decode(x)) && x@ == m,
        },
{
    match codec {
        PageCodec::Uncompressed => Ok(vstd::slice::slice_to_vec(compressed_data)),
        PageCodec::Snappy => Err(
            ParquetDemoError::Decode("Snappy decompression not implemented".to_string()),
        ),
        PageCodec::Gzip => Err(
            ParquetDemoError::Decode("Gzip decompression not implemented".to_string()),
        ),
        PageCodec::Lzo => Err(
            ParquetDemoError::Decode("LZO decompression not implemented".to_string()),
        ),
        PageCodec::Brotli => Err(
            ParquetDemoError::Decode("Brotli decompression not implemented".to_string()),
        ),
        PageCodec::Lz4 => Err(
            ParquetDemoError::Decode("LZ4 decompression not implemented".to_string()),
        ),
        PageCodec::Zstd => {
            let decompressed = match zstd_decode_all(compressed_data) {
                Ok(d) => d,
                Err(m) => {
                    return Err(ParquetDemoError::Io(m));
                },
            };
            check_decompressed_size(decompressed, uncompressed_size)
        },
    }
}

/// A hybrid decoding that completes holds exactly the number of values
/// asked for.
pub proof fn lemma_hybrid_len(data: Seq<u8>, pos: int, bit_width: u8, max: nat, acc: Seq<u8>)
    requires
        acc.len() <= max,
    ensures
        hybrid_from(data, pos, bit_width, max, acc) matches Decoded::Done((vals, _)) ==> vals.len()
            == max,
    decreases data.len() - pos,
{
    if acc.len() < max {
        match varint_read(data, pos) {
            VarintRead::Value { value: header, next: p1 } => {
                let room = (max - acc.len()) as nat;
                if header % 2 == 0 {
                    match bits_read(data, p1, bit_width) {
                        BitsRead::Value { value, next: p2 } => {
                            if pos < p2 <= data.len() {
                                let n = min_nat((header / 2) as nat, room);
                                lemma_hybrid_len(
                                    data,
                                    p2,
                                    bit_width,
                                    max,
                                    acc + Seq::new(n, |i: int| value),
                                );
                            }
                        },
                        _ => {},
                    }
                } else {
                    let n = min_nat(((header / 2) * 8) as nat, room);
                    let nbytes = ((header / 2) * bit_width) as nat;
                    if !(bit_width >= 8 && n > 0) && p1 + nbytes <= data.len() && pos < p1 + nbytes {
                        lemma_hybrid_len(
                            data,
                            p1 + nbytes,
                            bit_width,
                            max,
                            acc + unpacked_levels(data.subrange(p1, p1 + nbytes), bit_width as nat, n),
                        );
                    }
                }
            },
            _ => {},
        }
    }
}


/// A dictionary decoding holds at most the number of indices asked for.
pub proof fn lemma_dictionary_len(data: Seq<u8>, pos: int, bit_width: u8, count: nat, acc: Seq<u32>)
    requires
        acc.len() <= count,
    ensures
        dictionary_from(data, pos, bit_width, count, acc) matches Decoded::Done(vals) ==> vals.len()
            <= count,
    decreases data.len() - pos,
{
    if acc.len() < count {
        match varint_read(data, pos) {
            VarintRead::Value { value: header, next: p1 } => {
                let room = (count - acc.len()) as nat;
                if header % 2 == 0 {
                    if bit_width <= 8 {
                        let (v, p2) = dictionary_run_value(data, p1, bit_width);
                        if pos < p2 <= data.len() {
                            let n = min_nat((header / 2) as nat, room);
                            lemma_dictionary_len(
                                data,
                                p2,
                                bit_width,
                                count,
                                acc + Seq::new(n, |i: int| v),
                            );
                        }
                    }
                } else {
                    let n = min_nat(((header / 2) * 8) as nat, room);
                    let nbytes = bytes_for_bits(n * bit_width as nat);
                    if p1 + nbytes <= data.len() && pos < p1 + nbytes {
                        lemma_dictionary_len(
                            data,
                            p1 + nbytes,
                            bit_width,
                            count,
                            acc + unpacked(data.subrange(p1, p1 + nbytes), bit_width as nat, n),
                        );
                    }
                }
            },
            _ => {},
        }
    }
}

/// A value of `width` packed bits is below `2^width`.
proof fn lemma_packed_value_bound(bytes: Seq<u8>, start: int, width: nat)
    ensures
        packed_value(bytes, start, width) < pow2(width),
    decreases width,
{
    if width == 0 {
        vstd::arithmetic::power2::lemma2_to64();
    } else {
        let w1 = (width - 1) as nat;
        lemma_packed_value_bound(bytes, start, w1);
        vstd::arithmetic::power2::lemma_pow2_unfold(width);
        vstd::arithmetic::power2::lemma_pow2_pos(w1);
        let b = bit_at(bytes, start + width - 1);
        let p = pow2(w1);
        assert(b * p <= p) by (nonlinear_arith)
            requires
                b <= 1,
                p > 0,
        ;
    }
}

/// Every dictionary index decoded is below `2^bit_width`: RLE values are
/// masked to the width, and bit-packed values have that many bits.
pub proof fn lemma_dictionary_bound(data: Seq<u8>, pos: int, bit_width: u8, count: nat, acc: Seq<u32>)
    requires
        forall|i: int| 0 <= i < acc.len() ==> (#[trigger] acc[i] as nat) < pow2(bit_width as nat),
    ensures
        dictionary_from(data, pos, bit_width, count, acc) matches Decoded::Done(vals) ==> forall|i: int|
            0 <= i < vals.len() ==> (#[trigger] vals[i] as nat) < pow2(bit_width as nat),
    decreases data.len() - pos,
{
    let bw = bit_width as nat;
    vstd::arithmetic::power2::lemma_pow2_pos(bw);
    vstd::arithmetic::power2::lemma2_to64();
    if acc.len() < count {
        match varint_read(data, pos) {
            VarintRead::Value { value: header, next: p1 } => {
                let room = (count - acc.len()) as nat;
                if header % 2 == 0 {
                    if bit_width <= 8 {
                        let (v, p2) = dictionary_run_value(data, p1, bit_width);
                        if pos < p2 <= data.len() {
                            let n = min_nat((header / 2) as nat, room);
                            assert((v as nat) < pow2(bw)) by {
                                if bit_width > 0 && p1 < data.len() {
                                    vstd::arithmetic::power2::lemma_pow2_strictly_increases(bw, 9);
                                }
                            }
                            let next = acc + Seq::new(n, |i: int| v);
                            assert forall|i: int| 0 <= i < next.len() implies (#[trigger] next[i] as nat)
                                < pow2(bw) by {
                                if i >= acc.len() {
                                    assert(next[i] == v);
                                }
                            }
                            lemma_dictionary_bound(data, p2, bit_width, count, next);
                        }
                    }
                } else {
                    let n = min_nat(((header / 2) * 8) as nat, room);
                    let nbytes = bytes_for_bits(n * bw);
                    if p1 + nbytes <= data.len() && pos < p1 + nbytes && !(bit_width > 32 && n > 0) {
                        let sub = data.subrange(p1, p1 + nbytes);
                        let next = acc + unpacked(sub, bw, n);
                        assert forall|i: int| 0 <= i < next.len() implies (#[trigger] next[i] as nat)
                            < pow2(bw) by {
                            if i >= acc.len() {
                                let j = i - acc.len();
                                lemma_packed_value_bound(sub, j * bw, bw);
                                if bit_width < 32 {
                                    vstd::arithmetic::power2::lemma_pow2_strictly_increases(bw, 32);
                                }
                                assert(next[i] == packed_value(sub, j * bw, bw) as u32);
                            }
                        }
                        lemma_dictionary_bound(data, p1 + nbytes, bit_width, count, next);
                    }
                }
            },
            _ => {},
        }
    }
}

/// An RLE run written as the varint of twice its length followed by its
/// value byte (the varint the compact writer writes) decodes back to the
/// run: as many copies of the value as the run is long, taking every byte.
pub proof fn lemma_hybrid_rle_run(n: u32, value: u8, bit_width: u8)
    requires
        1 <= n < 0x8000_0000,
        bit_width == 1 || (2 <= bit_width <= 7 && value < pow2(bit_width as nat)),
    ensures
        hybrid_decode(varint_encoding(2 * n as nat).push(value), bit_width, n as nat) == Decoded::<
            (Seq<u8>, int),
        >::Done(
            (Seq::new(n as nat, |i: int| value), varint_encoding(2 * n as nat).len() + 1int),
        ),
{
    let enc = varint_encoding(2 * n as nat);
    let data = enc.push(value);
    assert(data.subrange(0, enc.len() as int) =~= enc);
    lemma_varint_roundtrip((2 * n) as u32, data, 0);
    let p1 = enc.len() as int;
    assert(data[p1] == value);
    if bit_width >= 2 {
        vstd::arithmetic::power2::lemma2_to64();
        vstd::arithmetic::div_mod::lemma_small_mod(value as nat, pow2(bit_width as nat));
    }
    assert(bits_read(data, p1, bit_width) == BitsRead::Value { value, next: p1 + 1 });
    let run = Seq::new(n as nat, |i: int| value);
    assert(Seq::<u8>::empty() + run =~= run);
    assert(hybrid_from(data, p1 + 1, bit_width, n as nat, run) == Decoded::<(Seq<u8>, int)>::Done(
        (run, p1 + 1),
    ));
}

/// An RLE run of dictionary indices written as the varint of twice its
/// length followed by its value byte decodes back to the run.
pub proof fn lemma_dictionary_rle_run(n: u32, value: u8, bit_width: u8)
    requires
        1 <= n < 0x8000_0000,
        1 <= bit_width <= 8,
        value < pow2(bit_width as nat),
    ensures
        dictionary_decode(varint_encoding(2 * n as nat).push(value), n as nat, bit_width)
            == Decoded::Done(Seq::new(n as nat, |i: int| value as u32)),
{
    let enc = varint_encoding(2 * n as nat);
    let data = enc.push(value);
    assert(data.subrange(0, enc.len() as int) =~= enc);
    lemma_varint_roundtrip((2 * n) as u32, data, 0);
    let p1 = enc.len() as int;
    assert(data[p1] == value);
    vstd::arithmetic::div_mod::lemma_small_mod(value as nat, pow2(bit_width as nat));
    assert(dictionary_run_value(data, p1, bit_width) == (value as u32, p1 + 1));
    let run = Seq::new(n as nat, |i: int| value as u32);
    assert(Seq::<u32>::empty() + run =~= run);
    assert(dictionary_from(data, p1 + 1, bit_width, n as nat, run) == Decoded::Done(run));
}

/// A decoding result with `pre` put in front of the indices it holds.
pub open spec fn prefixed(pre: Seq<u32>, r: Decoded<Seq<u32>>) -> Decoded<Seq<u32>> {
    match r {
        Decoded::Done(v) => Decoded::Done(pre + v),
        Decoded::Fails(f) => Decoded::Fails(f),
        Decoded::Panics => Decoded::Panics,
    }
}

/// Decoding from a position after some bytes `pre` does not depend on them.
proof fn lemma_dictionary_shift(
    pre: Seq<u8>,
    rest: Seq<u8>,
    q: int,
    bit_width: u8,
    count: nat,
    acc: Seq<u32>,
)
    requires
        0 <= q,
    ensures
        dictionary_from(pre + rest, pre.len() + q, bit_width, count, acc) == dictionary_from(
            rest,
            q,
            bit_width,
            count,
            acc,
        ),
    decreases rest.len() - q,
{
    let data = pre + rest;
    let d = pre.len() as int;
    lemma_varint_read_shift(pre, rest, q);
    if acc.len() < count {
        match varint_read(rest, q) {
            VarintRead::Value { value: header, next: p1 } => {
                lemma_varint_read_bounds(rest, q);
                let room = (count - acc.len()) as nat;
                if header % 2 == 0 {
                    if bit_width <= 8 {
                        let (v, p2) = dictionary_run_value(rest, p1, bit_width);
                        if bit_width > 0 && p1 < rest.len() {
                            assert(data[d + p1] == rest[p1]);
                        }
                        assert(dictionary_run_value(data, d + p1, bit_width) == (v, d + p2));
                        if q < p2 <= rest.len() {
                            let n = min_nat((header / 2) as nat, room);
                            lemma_dictionary_shift(
                                pre,
                                rest,
                                p2,
                                bit_width,
                                count,
                                acc + Seq::new(n, |i: int| v),
                            );
                        }
                    }
                } else {
                    let n = min_nat(((header / 2) * 8) as nat, room);
                    let nbytes = bytes_for_bits(n * bit_width as nat);
                    if p1 + nbytes <= rest.len() {
                        assert(data.subrange(d + p1, d + p1 + nbytes) =~= rest.subrange(
                            p1,
                            p1 + nbytes,
                        ));
                        if q < p1 + nbytes && !(bit_width > 32 && n > 0) {
                            lemma_dictionary_shift(
                                pre,
                                rest,
                                p1 + nbytes,
                                bit_width,
                                count,
                                acc + unpacked(rest.subrange(p1, p1 + nbytes), bit_width as nat, n),
                            );
                        }
                    }
                }
            },
            _ => {},
        }
    }
}

/// Decoding with indices `pre` already held gives `pre` followed by what
/// decoding the rest of the count gives.
proof fn lemma_dictionary_acc(
    data: Seq<u8>,
    pos: int,
    bit_width: u8,
    count: nat,
    pre: Seq<u32>,
    acc: Seq<u32>,
)
    requires
        pre.len() <= count,
    ensures
        dictionary_from(data, pos, bit_width, count, pre + acc) == prefixed(
            pre,
            dictionary_from(data, pos, bit_width, (count - pre.len()) as nat, acc),
        ),
    decreases data.len() - pos,
{
    let rest_count = (count - pre.len()) as nat;
    if (pre + acc).len() < count {
        match varint_read(data, pos) {
            VarintRead::Value { value: header, next: p1 } => {
                let room = (count - (pre + acc).len()) as nat;
                assert(room == (rest_count - acc.len()) as nat);
                if header % 2 == 0 {
                    if bit_width <= 8 {
                        let (v, p2) = dictionary_run_value(data, p1, bit_width);
                        if pos < p2 <= data.len() {
                            let n = min_nat((header / 2) as nat, room);
                            let x = Seq::new(n, |i: int| v);
                            assert((pre + acc) + x =~= pre + (acc + x));
                            lemma_dictionary_acc(data, p2, bit_width, count, pre, acc + x);
                        }
                    }
                } else {
                    let n = min_nat(((header / 2) * 8) as nat, room);
                    let nbytes = bytes_for_bits(n * bit_width as nat);
                    if !(p1 + nbytes > data.len()) && !(bit_width > 32 && n > 0) && pos < p1 + nbytes
                        <= data.len() {
                        let x = unpacked(data.subrange(p1, p1 + nbytes), bit_width as nat, n);
                        assert((pre + acc) + x =~= pre + (acc + x));
                        lemma_dictionary_acc(data, p1 + nbytes, bit_width, count, pre, acc + x);
                    }
                }
            },
            _ => {},
        }
    }
}

/// Decoding an RLE run followed by any further bytes gives the run's
/// indices followed by what those bytes decode to, for the indices still
/// wanted: decoding goes on after a run until the count is reached.
pub proof fn lemma_dictionary_rle_then(n: u32, value: u8, bit_width: u8, rest: Seq<u8>, count: nat)
    requires
        1 <= n < 0x8000_0000,
        n <= count,
        1 <= bit_width <= 8,
        value < pow2(bit_width as nat),
    ensures
        dictionary_decode(varint_encoding(2 * n as nat).push(value) + rest, count, bit_width)
            == prefixed(
            Seq::new(n as nat, |i: int| value as u32),
            dictionary_decode(rest, (count - n) as nat, bit_width),
        ),
{
    let enc = varint_encoding(2 * n as nat);
    let pre = enc.push(value);
    let data = pre + rest;
    assert(data.subrange(0, enc.len() as int) =~= enc);
    lemma_varint_roundtrip((2 * n) as u32, data, 0);
    let p1 = enc.len() as int;
    assert(data[p1] == value);
    vstd::arithmetic::div_mod::lemma_small_mod(value as nat, pow2(bit_width as nat));
    assert(dictionary_run_value(data, p1, bit_width) == (value as u32, p1 + 1));
    let run = Seq::new(n as nat, |i: int| value as u32);
    assert(Seq::<u32>::empty() + run =~= run);
    assert(dictionary_decode(data, count, bit_width) == dictionary_from(
        data,
        p1 + 1,
        bit_width,
        count,
        run,
    ));
    lemma_dictionary_shift(pre, rest, 0, bit_width, count, run);
    assert(run + Seq::<u32>::empty() =~= run);
    lemma_dictionary_acc(rest, 0, bit_width, count, run, Seq::empty());
}

/// Decoding a bit-packed run of `g` groups followed by any further bytes
/// gives the run's `8g` indices followed by what those bytes decode to, for
/// the indices still wanted.
pub proof fn lemma_dictionary_packed_then(
    g: u32,
    packed: Seq<u8>,
    bit_width: u8,
    rest: Seq<u8>,
    count: nat,
)
    requires
        1 <= g < 0x8000_0000,
        8 * g <= count,
        bit_width <= 32,
        packed.len() == g * bit_width,
    ensures
        dictionary_decode(varint_encoding((2 * g + 1) as nat) + packed + rest, count, bit_width)
            == prefixed(
            unpacked(packed, bit_width as nat, (8 * g) as nat),
            dictionary_decode(rest, (count - 8 * g) as nat, bit_width),
        ),
{
    let enc = varint_encoding((2 * g + 1) as nat);
    let pre = enc + packed;
    let data = pre + rest;
    assert(data =~= enc + packed + rest);
    assert(data.subrange(0, enc.len() as int) =~= enc);
    lemma_varint_roundtrip((2 * g + 1) as u32, data, 0);
    let p1 = enc.len() as int;
    let n = (8 * g) as nat;
    assert(bytes_for_bits(n * bit_width as nat) == g * bit_width) by (nonlinear_arith)
        requires
            n == 8 * g,
    ;
    assert(data.subrange(p1, p1 + packed.len()) =~= packed);
    let run = unpacked(packed, bit_width as nat, n);
    assert(Seq::<u32>::empty() + run =~= run);
    assert(dictionary_decode(data, count, bit_width) == dictionary_from(
        data,
        p1 + packed.len(),
        bit_width,
        count,
        run,
    ));
    assert(pre.len() == p1 + packed.len());
    lemma_dictionary_shift(pre, rest, 0, bit_width, count, run);
    assert(run + Seq::<u32>::empty() =~= run);
    lemma_dictionary_acc(rest, 0, bit_width, count, run, Seq::empty());
}

proof fn lemma_hybrid_from_agree(
    data: Seq<u8>,
    other: Seq<u8>,
    pos: int,
    bit_width: u8,
    max: nat,
    acc: Seq<u8>,
)
    requires
        0 <= pos <= data.len(),
        hybrid_from(data, pos, bit_width, max, acc) matches Decoded::Done((_, n)) && bytes_agree(
            data,
            other,
            pos,
            n,
        ),
    ensures
        hybrid_from(other, pos, bit_width, max, acc) == hybrid_from(data, pos, bit_width, max, acc),
    decreases data.len() - pos,
{
    if acc.len() < max {
        lemma_varint_read_bounds(data, pos);
        match varint_read(data, pos) {
            VarintRead::Value { value: header, next: p1 } => {
                let room = (max - acc.len()) as nat;
                if header % 2 == 0 {
                    match bits_read(data, p1, bit_width) {
                        BitsRead::Value { value, next: p2 } => {
                            if pos < p2 <= data.len() {
                                let n = min_nat((header / 2) as nat, room);
                                let acc2 = acc + Seq::new(n, |i: int| value);
                                lemma_hybrid_bounds(data, p2, bit_width, max, acc2);
                                lemma_varint_read_agree(data, other, pos);
                                lemma_hybrid_from_agree(data, other, p2, bit_width, max, acc2);
                            }
                        },
                        _ => {},
                    }
                } else {
                    let n = min_nat(((header / 2) * 8) as nat, room);
                    let nbytes = ((header / 2) * bit_width) as nat;
                    if !(bit_width >= 8 && n > 0) && p1 + nbytes <= data.len() && pos < p1 + nbytes {
                        let acc2 = acc + unpacked_levels(
                            data.subrange(p1, p1 + nbytes),
                            bit_width as nat,
                            n,
                        );
                        lemma_hybrid_bounds(data, p1 + nbytes, bit_width, max, acc2);
                        lemma_varint_read_agree(data, other, pos);
                        assert(other.subrange(p1, p1 + nbytes) =~= data.subrange(p1, p1 + nbytes));
                        lemma_hybrid_from_agree(data, other, p1 + nbytes, bit_width, max, acc2);
                    }
                }
            },
            _ => {},
        }
    }
}

/// The hybrid decoding depends only on the bytes it takes: where it
/// completes taking the first `n` bytes, any input that starts with those
/// same `n` bytes decodes to the same values and count, whatever follows.
pub proof fn lemma_hybrid_prefix(data: Seq<u8>, other: Seq<u8>, bit_width: u8, max_values: nat)
    requires
        hybrid_decode(data, bit_width, max_values) matches Decoded::Done((_, n)) && n <= other.len()
            && other.subrange(0, n) == data.subrange(0, n),
    ensures
        hybrid_decode(other, bit_width, max_values) == hybrid_decode(data, bit_width, max_values),
{
    lemma_hybrid_bounds(data, 0, bit_width, max_values, Seq::empty());
    let n = hybrid_decode(data, bit_width, max_values)->Done_0.1;
    assert forall|i: int| 0 <= i < n implies data[i] == other[i] by {
        assert(data[i] == data.subrange(0, n)[i]);
        assert(other[i] == other.subrange(0, n)[i]);
    }
    lemma_hybrid_from_agree(data, other, 0, bit_width, max_values, Seq::empty());
}

/// The hybrid decoding fails only where the input ends early.
pub proof fn lemma_hybrid_fails_at_end(data: Seq<u8>, pos: int, bit_width: u8, max: nat, acc: Seq<u8>)
    ensures
        hybrid_from(data, pos, bit_width, max, acc) matches Decoded::Fails(f) ==> f == Fault::Eof,
    decreases data.len() - pos,
{
    if acc.len() < max {
        match varint_read(data, pos) {
            VarintRead::Value { value: header, next: p1 } => {
                let room = (max - acc.len()) as nat;
                if header % 2 == 0 {
                    match bits_read(data, p1, bit_width) {
                        BitsRead::Value { value, next: p2 } => {
                            if pos < p2 <= data.len() {
                                let n = min_nat((header / 2) as nat, room);
                                lemma_hybrid_fails_at_end(
                                    data,
                                    p2,
                                    bit_width,
                                    max,
                                    acc + Seq::new(n, |i: int| value),
                                );
                            }
                        },
                        _ => {},
                    }
                } else {
                    let n = min_nat(((header / 2) * 8) as nat, room);
                    let nbytes = ((header / 2) * bit_width) as nat;
                    if !(bit_width >= 8 && n > 0) && p1 + nbytes <= data.len() && pos < p1 + nbytes {
                        lemma_hybrid_fails_at_end(
                            data,
                            p1 + nbytes,
                            bit_width,
                            max,
                            acc + unpacked_levels(data.subrange(p1, p1 + nbytes), bit_width as nat, n),
                        );
                    }
                }
            },
            _ => {},
        }
    }
}

} // verus!
