//! The bytes a stored row keeps for its value: the value's sign and digits,
//! written by bincode.

use crate::bigint::{canonical_int, signed_value, Int};
use vstd::prelude::*;

verus! {

/// `n` written as `k` little-endian bytes.
pub open spec fn le_bytes(n: nat, k: nat) -> Seq<u8>
    decreases k,
{
    if k == 0 {
        Seq::empty()
    } else {
        seq![(n % 256) as u8] + le_bytes(n / 256, (k - 1) as nat)
    }
}

pub open spec fn bool_byte(b: bool) -> u8 {
    if b {
        1
    } else {
        0
    }
}

/// bincode's layout of a `(bool, Vec<u8>)` under its default options: the flag
/// as one byte, the vector's length as a little-endian u64, then its bytes.
pub open spec fn pair_bytes(flag: bool, bytes: Seq<u8>) -> Seq<u8> {
    seq![bool_byte(flag)] + le_bytes(bytes.len(), 8) + bytes
}

pub open spec fn record_negative(r: Seq<u8>) -> bool {
    r[0] == 1
}

pub open spec fn record_digits(r: Seq<u8>) -> Seq<u8> {
    r.subrange(9, r.len() as int)
}

pub open spec fn is_pair_bytes(r: Seq<u8>) -> bool {
    exists|flag: bool, b: Seq<u8>| #[trigger] pair_bytes(flag, b) == r
}

/// The bytes of a record that holds an integer.
pub open spec fn is_record(r: Seq<u8>) -> bool {
    r.len() >= 9 && r == pair_bytes(record_negative(r), record_digits(r)) && canonical_int(
        record_negative(r),
        record_digits(r),
    )
}

/// The integer a record holds.
pub open spec fn record_value(r: Seq<u8>) -> int {
    signed_value(record_negative(r), record_digits(r))
}

proof fn lemma_le_bytes_len(n: nat, k: nat)
    ensures
        le_bytes(n, k).len() == k,
    decreases k,
{
    if k > 0 {
        lemma_le_bytes_len(n / 256, (k - 1) as nat);
    }
}

/// A pair is read back from its bytes.
proof fn lemma_pair_bytes_parts(flag: bool, bytes: Seq<u8>)
    ensures
        pair_bytes(flag, bytes).len() == 9 + bytes.len(),
        record_negative(pair_bytes(flag, bytes)) == flag,
        record_digits(pair_bytes(flag, bytes)) == bytes,
{
    lemma_le_bytes_len(bytes.len(), 8);
    let r = pair_bytes(flag, bytes);
    assert(r[0] == bool_byte(flag));
    assert(record_digits(r) =~= bytes);
}

/// Relies on bincode::serialize: under its default options (fixed-width
/// little-endian integers) a `(bool, Vec<u8>)` is written as the flag byte, the
/// length as a u64 and the bytes; writing into a `Vec` does not fail.
#[verifier::external_body]
fn serialize_pair(flag: bool, bytes: &Vec<u8>) -> (r: Vec<u8>)
    ensures
        r@ == pair_bytes(flag, bytes@),
{
    bincode::serialize(&(flag, bytes)).expect("serializing into memory")
}

/// Relies on bincode::deserialize: under its default options bytes laid out as
/// `bincode::serialize` writes a `(bool, Vec<u8>)` read back as that pair.
#[verifier::external_body]
fn deserialize_pair(bytes: &Vec<u8>) -> (r: Option<(bool, Vec<u8>)>)
    ensures
        is_pair_bytes(bytes@) ==> r is Some,
        r matches Some(p) ==> (is_pair_bytes(bytes@) ==> pair_bytes(p.0, p.1@) == bytes@),
{
    bincode::deserialize::<(bool, Vec<u8>)>(bytes.as_slice()).ok()
}

/// The record of an integer.
pub fn encode(v: &Int) -> (r: Vec<u8>)
    requires
        v.wf(),
    ensures
        is_record(r@),
        record_value(r@) == v@,
{
    let r = serialize_pair(v.negative, &v.digits);
    proof {
        lemma_pair_bytes_parts(v.negative, v.digits@);
    }
    r
}

/// The integer a record holds.
pub fn decode(r: &Vec<u8>) -> (v: Int)
    requires
        is_record(r@),
    ensures
        v.wf(),
        v@ == record_value(r@),
{
    let ghost flag = record_negative(r@);
    let ghost digits = record_digits(r@);
    assert(pair_bytes(flag, digits) == r@);
    match deserialize_pair(r) {
        Some((negative, digits)) => {
            proof {
                lemma_pair_bytes_parts(negative, digits@);
            }
            Int { negative, digits }
        },
        None => {
            proof {
                assert(false);
            }
            Int { negative: false, digits: Vec::new() }
        },
    }
}

} // verus!
