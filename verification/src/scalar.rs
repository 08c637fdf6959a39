//! Doubles as ordered keys.
//!
//! An IEEE-754 double is a sign bit and a magnitude of 63 bits, and among
//! the doubles that are numbers a greater magnitude is the magnitude of a
//! number further from zero. The *key* of a double is its magnitude, negated
//! where the sign bit is set. Keys therefore order as the numbers do, the
//! two zeros share the key `0`, and the key of `-x` is the negative of the
//! key of `x`. A double that is not a number has a magnitude above that of
//! infinity, and so a key beyond the keys of the two infinities.

use vstd::prelude::*;

verus! {

/// The sign bit of a double.
pub const SIGN: u64 = 0x8000_0000_0000_0000;

/// The key of positive infinity. A key is the key of a number exactly when
/// it lies between `-INFINITY` and `INFINITY`, the two included.
pub const INFINITY: i64 = 0x7FF0_0000_0000_0000;

/// The key of the double with the bits `bits`.
pub open spec fn spec_key(bits: u64) -> i64 {
    if bits >= SIGN {
        (-(bits - SIGN)) as i64
    } else {
        bits as i64
    }
}

/// The bits of the double with the key `key`. Zero comes back as positive
/// zero. `i64::MIN` is the key of no double and is read as `-i64::MAX`.
pub open spec fn spec_bits(key: i64) -> u64 {
    if key >= 0 {
        key as u64
    } else if key == i64::MIN {
        u64::MAX
    } else {
        (SIGN - key) as u64
    }
}

/// `key` is the key of a number, infinite or not.
pub open spec fn is_number(key: i64) -> bool {
    -INFINITY <= key <= INFINITY
}

/// `a < b` as doubles compare: no order holds where one of the two is not
/// a number.
pub open spec fn spec_lt(a: i64, b: i64) -> bool {
    is_number(a) && is_number(b) && a < b
}

/// The key of the double with the bits `bits`.
pub fn key(bits: u64) -> (k: i64)
    ensures
        k == spec_key(bits),
{
    if bits >= SIGN {
        -((bits - SIGN) as i64)
    } else {
        bits as i64
    }
}

/// The bits of the double with the key `key`.
pub fn bits(key: i64) -> (b: u64)
    ensures
        b == spec_bits(key),
{
    if key >= 0 {
        key as u64
    } else if key == i64::MIN {
        u64::MAX
    } else {
        SIGN + ((-key) as u64)
    }
}

/// `a < b` as doubles compare.
pub fn lt(a: i64, b: i64) -> (less: bool)
    ensures
        less == spec_lt(a, b),
{
    -INFINITY <= a && a < b && b <= INFINITY
}

/// A key is never `i64::MIN`, and the bits of a key are the bits it came
/// from, but for negative zero, which comes back as positive zero.
pub proof fn lemma_bits_of_key(bits: u64)
    ensures
        spec_key(bits) > i64::MIN,
        bits != SIGN ==> spec_bits(spec_key(bits)) == bits,
        bits == SIGN ==> spec_key(bits) == 0 && spec_bits(spec_key(bits)) == 0,
{
}

/// Every key but `i64::MIN` is the key of its bits.
pub proof fn lemma_key_of_bits(key: i64)
    requires
        key > i64::MIN,
    ensures
        spec_key(spec_bits(key)) == key,
{
}

/// Keys order by sign first and then by magnitude: among doubles with the
/// sign bit clear as their bits do, among doubles with the sign bit set
/// against their bits, and none with the sign bit set lies above one with
/// the sign bit clear.
pub proof fn lemma_key_orders_by_sign_and_magnitude(a: u64, b: u64)
    ensures
        a < SIGN && b < SIGN ==> (spec_key(a) < spec_key(b) <==> a < b),
        a >= SIGN && b >= SIGN ==> (spec_key(a) < spec_key(b) <==> a > b),
        a >= SIGN && b < SIGN ==> spec_key(a) <= 0 <= spec_key(b),
{
}

/// Flipping the sign bit negates the key.
pub proof fn lemma_key_of_negation(bits: u64)
    requires
        bits < SIGN,
    ensures
        spec_key((bits + SIGN) as u64) == -spec_key(bits),
{
}

/// Among numbers the order of doubles is a strict total order on keys;
/// what is not a number is out of order with everything, itself included.
pub proof fn lemma_lt_is_a_strict_order(a: i64, b: i64, c: i64)
    ensures
        !spec_lt(a, a),
        spec_lt(a, b) && spec_lt(b, c) ==> spec_lt(a, c),
        is_number(a) && is_number(b) ==> spec_lt(a, b) || a == b || spec_lt(b, a),
        !is_number(a) ==> !spec_lt(a, b) && !spec_lt(b, a),
{
}

} // verus!
