//! The binary encodings the store persists: genesis records and operation
//! payloads. The one contract other components depend on is that every
//! encoding round-trips exactly.

use vstd::prelude::*;

use crate::counter::Nat;
use crate::merge::CRDTInfo;
use crate::ops::OperationSigned;

verus! {

/// The eight little-endian bytes of a 64-bit integer.
pub open spec fn u64_le(x: u64) -> Seq<u8> {
    seq![
        (x & 0xff) as u8,
        ((x >> 8) & 0xff) as u8,
        ((x >> 16) & 0xff) as u8,
        ((x >> 24) & 0xff) as u8,
        ((x >> 32) & 0xff) as u8,
        ((x >> 40) & 0xff) as u8,
        ((x >> 48) & 0xff) as u8,
        ((x >> 56) & 0xff) as u8,
    ]
}

/// The 64-bit integer read from eight little-endian bytes.
pub open spec fn le_val(b: Seq<u8>) -> u64 {
    (b[0] as u64) | ((b[1] as u64) << 8) | ((b[2] as u64) << 16) | ((b[3] as u64) << 24) | (
    (b[4] as u64) << 32) | ((b[5] as u64) << 40) | ((b[6] as u64) << 48) | ((b[7] as u64) << 56)
}

/// Reading back the little-endian bytes of an integer yields the integer.
pub proof fn lemma_u64_le_round_trip(x: u64)
    ensures
        le_val(u64_le(x)) == x,
{
    assert(((x & 0xff) as u8 as u64) | ((((x >> 8) & 0xff) as u8 as u64) << 8) | ((((x >> 16)
        & 0xff) as u8 as u64) << 16) | ((((x >> 24) & 0xff) as u8 as u64) << 24) | ((((x >> 32)
        & 0xff) as u8 as u64) << 32) | ((((x >> 40) & 0xff) as u8 as u64) << 40) | ((((x >> 48)
        & 0xff) as u8 as u64) << 48) | ((((x >> 56) & 0xff) as u8 as u64) << 56) == x)
        by (bit_vector);
}

pub fn u64_to_le_bytes(x: u64) -> (r: Vec<u8>)
    ensures
        r@ == u64_le(x),
{
    let mut r: Vec<u8> = Vec::new();
    r.push((x & 0xff) as u8);
    r.push(((x >> 8) & 0xff) as u8);
    r.push(((x >> 16) & 0xff) as u8);
    r.push(((x >> 24) & 0xff) as u8);
    r.push(((x >> 32) & 0xff) as u8);
    r.push(((x >> 40) & 0xff) as u8);
    r.push(((x >> 48) & 0xff) as u8);
    r.push(((x >> 56) & 0xff) as u8);
    proof {
        assert(r@ =~= u64_le(x));
    }
    r
}

/// Reads the eight little-endian bytes at `off`.
pub fn u64_from_le_bytes(b: &Vec<u8>, off: usize) -> (r: u64)
    requires
        off + 8 <= b@.len(),
    ensures
        r == le_val(b@.subrange(off as int, off as int + 8)),
{
    let n = b.len();
    proof {
        assert(off + 8 <= n);
    }
    let r = (b[off] as u64) | ((b[off + 1] as u64) << 8u64) | ((b[off + 2] as u64) << 16u64) | ((b[
        off + 3] as u64) << 24u64) | ((b[off + 4] as u64) << 32u64) | ((b[off + 5] as u64)
        << 40u64) | ((b[off + 6] as u64) << 48u64) | ((b[off + 7] as u64) << 56u64);
    proof {
        let s = b@.subrange(off as int, off as int + 8);
        assert(s[0] == b@[off as int]);
        assert(s[1] == b@[off as int + 1]);
        assert(s[2] == b@[off as int + 2]);
        assert(s[3] == b@[off as int + 3]);
        assert(s[4] == b@[off as int + 4]);
        assert(s[5] == b@[off as int + 5]);
        assert(s[6] == b@[off as int + 6]);
        assert(s[7] == b@[off as int + 7]);
    }
    r
}

/// A fresh dataset identifier for a new genesis record; unpredictable, so
/// independently created datasets are distinguishable.
pub fn get_random_id() -> u64 {
    let b = crate::trusted::random_bytes(8);
    u64_from_le_bytes(&b, 0)
}

/// The genesis record on disk: the initial value, then the dataset
/// identifier, sixteen bytes in all.
pub open spec fn spec_encode_genesis(info: CRDTInfo<Nat>) -> Seq<u8> {
    u64_le(info.value.n) + u64_le(info.id)
}

pub open spec fn spec_decode_genesis(b: Seq<u8>) -> Option<CRDTInfo<Nat>> {
    if b.len() == 16 {
        Some(
            CRDTInfo {
                value: Nat { n: le_val(b.subrange(0, 8)) },
                id: le_val(b.subrange(8, 16)),
            },
        )
    } else {
        None
    }
}

pub fn encode_genesis(info: &CRDTInfo<Nat>) -> (r: Vec<u8>)
    ensures
        r@ == spec_encode_genesis(*info),
{
    let mut r = u64_to_le_bytes(info.value.n);
    let mut id = u64_to_le_bytes(info.id);
    r.append(&mut id);
    r
}

pub fn decode_genesis(b: &Vec<u8>) -> (r: Option<CRDTInfo<Nat>>)
    ensures
        r == spec_decode_genesis(b@),
{
    if b.len() != 16 {
        return None;
    }
    let v = u64_from_le_bytes(b, 0);
    let id = u64_from_le_bytes(b, 8);
    Some(CRDTInfo { value: Nat { n: v }, id })
}

/// Decoding an encoded genesis record reproduces the original exactly.
pub proof fn lemma_genesis_round_trip(info: CRDTInfo<Nat>)
    ensures
        spec_decode_genesis(spec_encode_genesis(info)) == Some(info),
{
    let e = spec_encode_genesis(info);
    assert(e.subrange(0, 8) =~= u64_le(info.value.n));
    assert(e.subrange(8, 16) =~= u64_le(info.id));
    lemma_u64_le_round_trip(info.value.n);
    lemma_u64_le_round_trip(info.id);
}

/// An operation on disk: the causal counter, the increment, then the
/// signature over the first sixteen bytes.
pub open spec fn spec_encode_op(op: OperationSigned<Nat>) -> Seq<u8> {
    u64_le(op.counter) + u64_le(op.description.n) + op.signature@
}

/// What the stored bytes decode to: counter, increment, signature bytes.
pub open spec fn spec_decode_op(b: Seq<u8>) -> Option<(u64, Nat, Seq<u8>)> {
    if b.len() >= 16 {
        Some(
            (
                le_val(b.subrange(0, 8)),
                Nat { n: le_val(b.subrange(8, 16)) },
                b.subrange(16, b.len() as int),
            ),
        )
    } else {
        None
    }
}

pub fn encode_operation(op: &OperationSigned<Nat>) -> (r: Vec<u8>)
    ensures
        r@ == spec_encode_op(*op),
{
    let mut r = u64_to_le_bytes(op.counter);
    let mut d = u64_to_le_bytes(op.description.n);
    r.append(&mut d);
    let mut i: usize = 0;
    while i < op.signature.len()
        invariant
            i <= op.signature@.len(),
            r@ == u64_le(op.counter) + u64_le(op.description.n) + op.signature@.subrange(
                0,
                i as int,
            ),
        decreases op.signature@.len() - i,
    {
        r.push(op.signature[i]);
        proof {
            assert(r@ =~= u64_le(op.counter) + u64_le(op.description.n)
                + op.signature@.subrange(0, i + 1));
        }
        i += 1;
    }
    proof {
        assert(op.signature@.subrange(0, op.signature@.len() as int) =~= op.signature@);
        assert(r@ =~= spec_encode_op(*op));
    }
    r
}

pub fn decode_operation(b: &Vec<u8>) -> (r: Option<OperationSigned<Nat>>)
    ensures
        r is Some <==> spec_decode_op(b@) is Some,
        r matches Some(op) ==> spec_decode_op(b@) == Some(
            (op.counter, op.description, op.signature@),
        ),
{
    if b.len() < 16 {
        return None;
    }
    let counter = u64_from_le_bytes(b, 0);
    let n = u64_from_le_bytes(b, 8);
    let mut signature: Vec<u8> = Vec::new();
    let mut i: usize = 16;
    while i < b.len()
        invariant
            16 <= i <= b@.len(),
            signature@ == b@.subrange(16, i as int),
        decreases b@.len() - i,
    {
        signature.push(b[i]);
        proof {
            assert(signature@ =~= b@.subrange(16, i + 1));
        }
        i += 1;
    }
    Some(OperationSigned { counter, description: Nat { n }, signature })
}

/// Decoding an encoded operation reproduces the original exactly.
pub proof fn lemma_operation_round_trip(op: OperationSigned<Nat>)
    ensures
        spec_decode_op(spec_encode_op(op)) == Some((op.counter, op.description, op.signature@)),
{
    let e = spec_encode_op(op);
    assert(e.subrange(0, 8) =~= u64_le(op.counter));
    assert(e.subrange(8, 16) =~= u64_le(op.description.n));
    assert(e.subrange(16, e.len() as int) =~= op.signature@);
    lemma_u64_le_round_trip(op.counter);
    lemma_u64_le_round_trip(op.description.n);
}

} // verus!
