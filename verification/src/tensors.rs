//! Integer contents of constant tensors.
use crate::bytes;
use crate::protos;
use crate::protos::{TensorProto, TensorV};
use vstd::prelude::*;

verus! {

/// A tensor has a payload in one of the fields that are read.
pub open spec fn has_data(t: TensorV) -> bool {
    t.raw_data.len() > 0 || t.float_data.len() > 0 || t.int32_data.len() > 0 || t.int64_data.len()
        > 0 || t.double_data.len() > 0
}

pub fn has_payload(t: &TensorProto) -> (r: bool)
    ensures
        r == has_data(t@),
{
    t.raw_data.len() > 0 || t.float_data.len() > 0 || t.int32_data.len() > 0 || t.int64_data.len()
        > 0 || t.double_data.len() > 0
}

pub open spec fn widened(v: Seq<i32>) -> Seq<i64> {
    Seq::new(v.len(), |i: int| v[i] as i64)
}

pub open spec fn is_int_type(code: i32) -> bool {
    code == protos::TYPE_INT64 || code == protos::TYPE_INT32
}

/// The integers of a tensor: raw bytes read as 32-bit or 64-bit integers by the
/// element type, or else the typed fields.
pub open spec fn int_payload(t: TensorV) -> Seq<i64> {
    if t.raw_data.len() > 0 {
        if t.data_type == protos::TYPE_INT32 {
            bytes::signed_chunks(t.raw_data, 4)
        } else {
            bytes::signed_chunks(t.raw_data, 8)
        }
    } else if t.int64_data.len() > 0 {
        t.int64_data
    } else {
        widened(t.int32_data)
    }
}

fn widen(v: &Vec<i32>) -> (r: Vec<i64>)
    ensures
        r@ == widened(v@),
{
    let mut r: Vec<i64> = Vec::new();
    let mut i: usize = 0;
    while i < v.len()
        invariant
            i <= v@.len(),
            r@ == widened(v@).take(i as int),
        decreases v@.len() - i,
    {
        r.push(v[i] as i64);
        i = i + 1;
        assert(r@ =~= widened(v@).take(i as int));
    }
    assert(widened(v@).take(i as int) =~= widened(v@));
    r
}

pub fn read_int_payload(t: &TensorProto) -> (r: Vec<i64>)
    ensures
        r@ == int_payload(t@),
{
    if t.raw_data.len() > 0 {
        if t.data_type == protos::TYPE_INT32 {
            bytes::read_signed_chunks(&t.raw_data, 4)
        } else {
            bytes::read_signed_chunks(&t.raw_data, 8)
        }
    } else if t.int64_data.len() > 0 {
        let r = t.int64_data.clone();
        assert(r@ =~= t.int64_data@);
        r
    } else {
        widen(&t.int32_data)
    }
}

pub open spec fn byte_values(v: Seq<u8>) -> Seq<i64> {
    Seq::new(v.len(), |i: int| v[i] as i64)
}

/// The integers of a tensor that a condition may depend on: booleans are a byte
/// each.
pub open spec fn condition_payload(t: TensorV) -> Seq<i64> {
    if t.raw_data.len() > 0 && t.data_type == protos::TYPE_BOOL {
        byte_values(t.raw_data)
    } else {
        int_payload(t)
    }
}

pub fn read_int_tensor(t: &TensorProto) -> (r: Vec<i64>)
    ensures
        r@ == condition_payload(t@),
{
    if t.raw_data.len() > 0 && t.data_type == protos::TYPE_BOOL {
        let mut r: Vec<i64> = Vec::new();
        let mut i: usize = 0;
        while i < t.raw_data.len()
            invariant
                i <= t.raw_data@.len(),
                r@ == byte_values(t.raw_data@).take(i as int),
            decreases t.raw_data@.len() - i,
        {
            r.push(t.raw_data[i] as i64);
            i = i + 1;
            assert(r@ =~= byte_values(t.raw_data@).take(i as int));
        }
        assert(byte_values(t.raw_data@).take(i as int) =~= byte_values(t.raw_data@));
        r
    } else {
        read_int_payload(t)
    }
}

} // verus!
