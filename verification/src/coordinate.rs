//! Keys for coordinates that are binary floating-point numbers.
//!
//! The tree orders its intervals by integers. A floating-point number of
//! 64 bits (IEEE 754 binary64) consists of a sign bit and 63 bits of
//! magnitude, and two such numbers, neither of them a NaN, compare as the
//! integers do that their bits denote when read as sign and magnitude;
//! positive and negative zero, which compare equal, both denote 0. So a
//! host with such coordinates hands the tree the keys of their bit
//! patterns, and turns the keys it gets back into bit patterns again.

use vstd::prelude::*;

verus! {

/// The bit that holds the sign.
pub const SIGN_BIT: u64 = 0x8000_0000_0000_0000;

/// The integer that `bits` denote when the highest bit is read as the sign
/// and the other 63 bits as the magnitude.
pub open spec fn sign_magnitude(bits: u64) -> int {
    if bits < SIGN_BIT {
        bits as int
    } else {
        -(bits - SIGN_BIT)
    }
}

/// The bit pattern that denotes `key`: of the two patterns for 0 the one
/// without the sign.
pub open spec fn pattern(key: int) -> int {
    if key >= 0 {
        key
    } else {
        SIGN_BIT - key
    }
}

/// The key of a bit pattern: the integer it denotes as sign and magnitude.
pub fn key_from_bits(bits: u64) -> (key: i64)
    ensures
        key == sign_magnitude(bits),
        key > i64::MIN,
{
    if bits < SIGN_BIT {
        bits as i64
    } else {
        -((bits - SIGN_BIT) as i64)
    }
}

/// The bit pattern of a key, if it has one: `i64::MIN` has a magnitude of
/// 64 bits and therefore none.
pub fn bits_from_key(key: i64) -> (bits: Option<u64>)
    ensures
        bits == if key > i64::MIN {
            Some(pattern(key as int) as u64)
        } else {
            None
        },
        key > i64::MIN ==> sign_magnitude(bits.unwrap()) == key,
{
    if key >= 0 {
        Some(key as u64)
    } else if key > i64::MIN {
        Some(SIGN_BIT + ((-key) as u64))
    } else {
        None
    }
}

/// Keys order bit patterns as sign and magnitude do: without the sign by
/// the bits themselves, with the sign in reverse, and every pattern with
/// the sign at or below every pattern without it.
pub proof fn lemma_key_order(a: u64, b: u64)
    ensures
        a < SIGN_BIT && b < SIGN_BIT ==> (sign_magnitude(a) <= sign_magnitude(b) <==> a <= b),
        a >= SIGN_BIT && b >= SIGN_BIT ==> (sign_magnitude(a) <= sign_magnitude(b) <==> b <= a),
        a >= SIGN_BIT && b < SIGN_BIT ==> sign_magnitude(a) <= sign_magnitude(b),
        sign_magnitude(a) == sign_magnitude(b) <==> a == b || (a == 0 && b == SIGN_BIT) || (a
            == SIGN_BIT && b == 0),
{
}

/// A key's bit pattern has the key again; a bit pattern's key has the
/// pattern again, but for the zero with the sign, which comes back without
/// it.
pub proof fn lemma_key_round_trip(key: i64, bits: u64)
    ensures
        key > i64::MIN ==> sign_magnitude(pattern(key as int) as u64) == key,
        bits != SIGN_BIT ==> pattern(sign_magnitude(bits)) == bits,
        pattern(sign_magnitude(SIGN_BIT)) == 0,
{
}

} // verus!
