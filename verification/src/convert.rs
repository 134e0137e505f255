//! Runs of elements of each supported kind, to big-endian bytes and back.

use vstd::prelude::*;
use vstd::slice::slice_subrange;

use crate::element::{lemma_parsed_push, lemma_payload_push, parsed, payload};
use crate::endian::{lemma_be_value_bound, lemma_radix_pow_values, push_be, read_be};
use crate::error::CodecError;
use crate::kind::Kind;
use crate::tensor::{ints_i32, ints_i64, ints_u32, ints_u64, ints_u8};

verus! {

/// Writes unsigned 8-bit integers: one byte each.
pub fn to_bytes_uint8(values: &[u8]) -> (data: Vec<u8>)
    ensures
        data@ == payload(Kind::Uint8, ints_u8(values@)),
{
    let ghost all = ints_u8(values@);
    let mut data: Vec<u8> = Vec::new();
    let mut i: usize = 0;
    assert(data@ =~= payload(Kind::Uint8, all.take(0)));
    while i < values.len()
        invariant
            i <= values@.len(),
            all == ints_u8(values@),
            data@ == payload(Kind::Uint8, all.take(i as int)),
        decreases values@.len() - i,
    {
        proof {
            lemma_payload_push(Kind::Uint8, all.take(i as int), all[i as int]);
            assert(all.take(i + 1) =~= all.take(i as int).push(all[i as int]));
        }
        push_be(&mut data, values[i] as u64, 1);
        i = i + 1;
    }
    assert(all.take(i as int) =~= all);
    data
}

/// Writes signed 32-bit integers: four bytes each, in two's complement.
pub fn to_bytes_int(values: &[i32]) -> (data: Vec<u8>)
    ensures
        data@ == payload(Kind::Int, ints_i32(values@)),
{
    let ghost all = ints_i32(values@);
    let mut data: Vec<u8> = Vec::new();
    let mut i: usize = 0;
    assert(data@ =~= payload(Kind::Int, all.take(0)));
    while i < values.len()
        invariant
            i <= values@.len(),
            all == ints_i32(values@),
            data@ == payload(Kind::Int, all.take(i as int)),
        decreases values@.len() - i,
    {
        proof {
            lemma_radix_pow_values();
            lemma_payload_push(Kind::Int, all.take(i as int), all[i as int]);
            assert(all.take(i + 1) =~= all.take(i as int).push(all[i as int]));
        }
        let value = values[i];
        let bits: u64 = if value < 0 {
            (value as i64 + 0x1_0000_0000) as u64
        } else {
            value as u64
        };
        push_be(&mut data, bits, 4);
        i = i + 1;
    }
    assert(all.take(i as int) =~= all);
    data
}

/// Writes signed 64-bit integers: eight bytes each, in two's complement.
pub fn to_bytes_int64(values: &[i64]) -> (data: Vec<u8>)
    ensures
        data@ == payload(Kind::Int64, ints_i64(values@)),
{
    let ghost all = ints_i64(values@);
    let mut data: Vec<u8> = Vec::new();
    let mut i: usize = 0;
    assert(data@ =~= payload(Kind::Int64, all.take(0)));
    while i < values.len()
        invariant
            i <= values@.len(),
            all == ints_i64(values@),
            data@ == payload(Kind::Int64, all.take(i as int)),
        decreases values@.len() - i,
    {
        proof {
            lemma_radix_pow_values();
            lemma_payload_push(Kind::Int64, all.take(i as int), all[i as int]);
            assert(all.take(i + 1) =~= all.take(i as int).push(all[i as int]));
        }
        let value = values[i];
        let bits: u64 = if value < 0 {
            ((value + i64::MAX) + 1) as u64 + 0x8000_0000_0000_0000
        } else {
            value as u64
        };
        push_be(&mut data, bits, 8);
        i = i + 1;
    }
    assert(all.take(i as int) =~= all);
    data
}

/// Writes 32-bit floats, each given by its bits: four bytes each.
pub fn to_bytes_float(values: &[u32]) -> (data: Vec<u8>)
    ensures
        data@ == payload(Kind::Float, ints_u32(values@)),
{
    let ghost all = ints_u32(values@);
    let mut data: Vec<u8> = Vec::new();
    let mut i: usize = 0;
    assert(data@ =~= payload(Kind::Float, all.take(0)));
    while i < values.len()
        invariant
            i <= values@.len(),
            all == ints_u32(values@),
            data@ == payload(Kind::Float, all.take(i as int)),
        decreases values@.len() - i,
    {
        proof {
            lemma_payload_push(Kind::Float, all.take(i as int), all[i as int]);
            assert(all.take(i + 1) =~= all.take(i as int).push(all[i as int]));
        }
        push_be(&mut data, values[i] as u64, 4);
        i = i + 1;
    }
    assert(all.take(i as int) =~= all);
    data
}

/// Writes 64-bit floats, each given by its bits: eight bytes each.
pub fn to_bytes_double(values: &[u64]) -> (data: Vec<u8>)
    ensures
        data@ == payload(Kind::Double, ints_u64(values@)),
{
    let ghost all = ints_u64(values@);
    let mut data: Vec<u8> = Vec::new();
    let mut i: usize = 0;
    assert(data@ =~= payload(Kind::Double, all.take(0)));
    while i < values.len()
        invariant
            i <= values@.len(),
            all == ints_u64(values@),
            data@ == payload(Kind::Double, all.take(i as int)),
        decreases values@.len() - i,
    {
        proof {
            lemma_payload_push(Kind::Double, all.take(i as int), all[i as int]);
            assert(all.take(i + 1) =~= all.take(i as int).push(all[i as int]));
        }
        push_be(&mut data, values[i], 8);
        i = i + 1;
    }
    assert(all.take(i as int) =~= all);
    data
}

/// Reads unsigned 8-bit integers: one from each byte.
pub fn from_bytes_uint8(data: &[u8]) -> (values: Vec<u8>)
    ensures
        ints_u8(values@) == parsed(Kind::Uint8, data@),
{
    let mut values: Vec<u8> = Vec::new();
    let mut i: usize = 0;
    assert(ints_u8(values@) =~= parsed(Kind::Uint8, data@.take(0)));
    while i < data.len()
        invariant
            i <= data@.len(),
            ints_u8(values@) == parsed(Kind::Uint8, data@.take(i as int)),
        decreases data@.len() - i,
    {
        let chunk = slice_subrange(data, i, i + 1);
        let bits = read_be(chunk);
        proof {
            lemma_be_value_bound(chunk@);
            lemma_radix_pow_values();
            lemma_parsed_push(Kind::Uint8, data@.take(i as int), chunk@);
            assert(data@.take(i + 1) =~= data@.take(i as int) + chunk@);
            assert(ints_u8(values@.push(bits as u8)) =~= ints_u8(values@).push(bits as int));
        }
        values.push(bits as u8);
        i = i + 1;
    }
    assert(data@.take(i as int) =~= data@);
    values
}

/// Reads signed 32-bit integers, one from every four bytes, or fails with
/// `TruncatedPayload` where the bytes do not end on such a boundary.
pub fn from_bytes_int(data: &[u8]) -> (values: Result<Vec<i32>, CodecError>)
    ensures
        data@.len() % 4 == 0 ==> values is Ok && ints_i32(values->Ok_0@) == parsed(
            Kind::Int,
            data@,
        ),
        data@.len() % 4 != 0 ==> values == Err::<Vec<i32>, CodecError>(
            CodecError::TruncatedPayload,
        ),
{
    if data.len() % 4 != 0 {
        return Err(CodecError::TruncatedPayload);
    }
    let count = data.len() / 4;
    let mut values: Vec<i32> = Vec::new();
    let mut i: usize = 0;
    assert(ints_i32(values@) =~= parsed(Kind::Int, data@.take(0)));
    while i < count
        invariant
            i <= count,
            count * 4 == data@.len() <= usize::MAX,
            ints_i32(values@) == parsed(Kind::Int, data@.take(i * 4)),
        decreases count - i,
    {
        let chunk = slice_subrange(data, i * 4, i * 4 + 4);
        let bits = read_be(chunk);
        proof {
            lemma_be_value_bound(chunk@);
            lemma_radix_pow_values();
            lemma_parsed_push(Kind::Int, data@.take(i * 4), chunk@);
            assert(data@.take((i + 1) * 4) =~= data@.take(i * 4) + chunk@);
        }
        let value: i32 = if bits >= 0x8000_0000 {
            (bits as i64 - 0x1_0000_0000) as i32
        } else {
            bits as i32
        };
        proof {
            assert(ints_i32(values@.push(value)) =~= ints_i32(values@).push(value as int));
        }
        values.push(value);
        i = i + 1;
    }
    assert(data@.take(i * 4) =~= data@);
    Ok(values)
}

/// Reads signed 64-bit integers, one from every eight bytes, or fails with
/// `TruncatedPayload` where the bytes do not end on such a boundary.
pub fn from_bytes_int64(data: &[u8]) -> (values: Result<Vec<i64>, CodecError>)
    ensures
        data@.len() % 8 == 0 ==> values is Ok && ints_i64(values->Ok_0@) == parsed(
            Kind::Int64,
            data@,
        ),
        data@.len() % 8 != 0 ==> values == Err::<Vec<i64>, CodecError>(
            CodecError::TruncatedPayload,
        ),
{
    if data.len() % 8 != 0 {
        return Err(CodecError::TruncatedPayload);
    }
    let count = data.len() / 8;
    let mut values: Vec<i64> = Vec::new();
    let mut i: usize = 0;
    assert(ints_i64(values@) =~= parsed(Kind::Int64, data@.take(0)));
    while i < count
        invariant
            i <= count,
            count * 8 == data@.len() <= usize::MAX,
            ints_i64(values@) == parsed(Kind::Int64, data@.take(i * 8)),
        decreases count - i,
    {
        let chunk = slice_subrange(data, i * 8, i * 8 + 8);
        let bits = read_be(chunk);
        proof {
            lemma_be_value_bound(chunk@);
            lemma_radix_pow_values();
            lemma_parsed_push(Kind::Int64, data@.take(i * 8), chunk@);
            assert(data@.take((i + 1) * 8) =~= data@.take(i * 8) + chunk@);
        }
        let value: i64 = if bits >= 0x8000_0000_0000_0000 {
            ((bits - 0x8000_0000_0000_0000) as i64 - i64::MAX) - 1
        } else {
            bits as i64
        };
        proof {
            assert(ints_i64(values@.push(value)) =~= ints_i64(values@).push(value as int));
        }
        values.push(value);
        i = i + 1;
    }
    assert(data@.take(i * 8) =~= data@);
    Ok(values)
}

/// Reads the bits of 32-bit floats, one from every four bytes, or fails
/// with `TruncatedPayload` where the bytes do not end on such a boundary.
pub fn from_bytes_float(data: &[u8]) -> (values: Result<Vec<u32>, CodecError>)
    ensures
        data@.len() % 4 == 0 ==> values is Ok && ints_u32(values->Ok_0@) == parsed(
            Kind::Float,
            data@,
        ),
        data@.len() % 4 != 0 ==> values == Err::<Vec<u32>, CodecError>(
            CodecError::TruncatedPayload,
        ),
{
    if data.len() % 4 != 0 {
        return Err(CodecError::TruncatedPayload);
    }
    let count = data.len() / 4;
    let mut values: Vec<u32> = Vec::new();
    let mut i: usize = 0;
    assert(ints_u32(values@) =~= parsed(Kind::Float, data@.take(0)));
    while i < count
        invariant
            i <= count,
            count * 4 == data@.len() <= usize::MAX,
            ints_u32(values@) == parsed(Kind::Float, data@.take(i * 4)),
        decreases count - i,
    {
        let chunk = slice_subrange(data, i * 4, i * 4 + 4);
        let bits = read_be(chunk);
        proof {
            lemma_be_value_bound(chunk@);
            lemma_radix_pow_values();
            lemma_parsed_push(Kind::Float, data@.take(i * 4), chunk@);
            assert(data@.take((i + 1) * 4) =~= data@.take(i * 4) + chunk@);
            assert(ints_u32(values@.push(bits as u32)) =~= ints_u32(values@).push(bits as int));
        }
        values.push(bits as u32);
        i = i + 1;
    }
    assert(data@.take(i * 4) =~= data@);
    Ok(values)
}

/// Reads the bits of 64-bit floats, one from every eight bytes, or fails
/// with `TruncatedPayload` where the bytes do not end on such a boundary.
pub fn from_bytes_double(data: &[u8]) -> (values: Result<Vec<u64>, CodecError>)
    ensures
        data@.len() % 8 == 0 ==> values is Ok && ints_u64(values->Ok_0@) == parsed(
            Kind::Double,
            data@,
        ),
        data@.len() % 8 != 0 ==> values == Err::<Vec<u64>, CodecError>(
            CodecError::TruncatedPayload,
        ),
{
    if data.len() % 8 != 0 {
        return Err(CodecError::TruncatedPayload);
    }
    let count = data.len() / 8;
    let mut values: Vec<u64> = Vec::new();
    let mut i: usize = 0;
    assert(ints_u64(values@) =~= parsed(Kind::Double, data@.take(0)));
    while i < count
        invariant
            i <= count,
            count * 8 == data@.len() <= usize::MAX,
            ints_u64(values@) == parsed(Kind::Double, data@.take(i * 8)),
        decreases count - i,
    {
        let chunk = slice_subrange(data, i * 8, i * 8 + 8);
        let bits = read_be(chunk);
        proof {
            lemma_parsed_push(Kind::Double, data@.take(i * 8), chunk@);
            assert(data@.take((i + 1) * 8) =~= data@.take(i * 8) + chunk@);
            assert(ints_u64(values@.push(bits)) =~= ints_u64(values@).push(bits as int));
        }
        values.push(bits);
        i = i + 1;
    }
    assert(data@.take(i * 8) =~= data@);
    Ok(values)
}

} // verus!
