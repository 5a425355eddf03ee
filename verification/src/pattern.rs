//! What the 64 bits of a binary floating-point value denote, and why the
//! rank of [`crate::order`] is the order of the values.
//!
//! The highest bit is the sign. Of the other 63 bits, the magnitude, the
//! upper eleven are the exponent field and the lower 52 the fraction field.
//! A magnitude whose exponent field is below its maximum denotes a finite
//! size: counted in units of the least positive value, the fraction itself
//! where the exponent field is zero, and else the fraction with a leading one
//! before it, doubled once for every step of the exponent field above one.
//! The greatest exponent field with a zero fraction denotes infinity; with any
//! other fraction the pattern denotes no number.

use crate::order::{rank, SIGN_BIT};
use vstd::arithmetic::mul::{lemma_mul_inequality, lemma_mul_strict_inequality};
use vstd::arithmetic::power2::{
    lemma_pow2_pos, lemma_pow2_strictly_increases, lemma_pow2_unfold, pow2,
};
use vstd::prelude::*;

verus! {

/// The number of values that the fraction field can hold; as a bit, the
/// leading one of a fraction.
pub const FRACTION_RANGE: u64 = 0x10_0000_0000_0000;

/// The greatest exponent field: that of infinity and of what is no number.
pub const MAX_EXPONENT: u64 = 2047;

/// The pattern of positive infinity.
pub const INFINITY: u64 = 0x7ff0_0000_0000_0000;

/// The pattern of negative infinity.
pub const NEGATIVE_INFINITY: u64 = 0xfff0_0000_0000_0000;

/// The pattern has its sign bit set.
pub open spec fn is_negative(bits: u64) -> bool {
    bits >= SIGN_BIT
}

/// The pattern without its sign bit.
pub open spec fn magnitude(bits: u64) -> nat {
    if bits < SIGN_BIT {
        bits as nat
    } else {
        (bits - SIGN_BIT) as nat
    }
}

/// The exponent field of the pattern.
pub open spec fn exponent_field(bits: u64) -> nat {
    magnitude(bits) / (FRACTION_RANGE as nat)
}

/// The fraction field of the pattern.
pub open spec fn fraction_field(bits: u64) -> nat {
    magnitude(bits) % (FRACTION_RANGE as nat)
}

/// The pattern denotes a finite value.
pub open spec fn is_finite(bits: u64) -> bool {
    exponent_field(bits) < MAX_EXPONENT
}

/// The pattern denotes a number: a finite value or an infinity.
pub open spec fn is_number(bits: u64) -> bool {
    is_finite(bits) || fraction_field(bits) == 0
}

/// The size of the finite value that the pattern denotes, in units of the
/// least positive value.
pub open spec fn size(bits: u64) -> nat
    recommends
        is_finite(bits),
{
    if exponent_field(bits) == 0 {
        fraction_field(bits)
    } else {
        ((FRACTION_RANGE + fraction_field(bits)) * pow2((exponent_field(bits) - 1) as nat)) as nat
    }
}

/// The finite value that the pattern denotes, in units of the least positive
/// value.
pub open spec fn value(bits: u64) -> int
    recommends
        is_finite(bits),
{
    if is_negative(bits) {
        -(size(bits) as int)
    } else {
        size(bits) as int
    }
}

/// Whether the pattern denotes a number.
pub fn denotes_number(bits: u64) -> (r: bool)
    ensures
        r == is_number(bits),
{
    let magnitude = if bits < SIGN_BIT {
        bits
    } else {
        bits - SIGN_BIT
    };
    magnitude <= INFINITY
}

/// Of two finite patterns, the one with the lesser magnitude denotes the
/// lesser size.
pub proof fn lemma_size_grows_with_magnitude(a: u64, b: u64)
    requires
        is_finite(a),
        is_finite(b),
        magnitude(a) < magnitude(b),
    ensures
        size(a) < size(b),
{
    let ea = exponent_field(a);
    let eb = exponent_field(b);
    let fa = fraction_field(a);
    let fb = fraction_field(b);
    let one = FRACTION_RANGE as int;
    assert(ea < eb || (ea == eb && fa < fb));
    if ea == eb {
        if ea > 0 {
            let p = pow2((ea - 1) as nat);
            lemma_pow2_pos((ea - 1) as nat);
            lemma_mul_strict_inequality(one + fa, one + fb, p as int);
        }
    } else {
        let pb = pow2((eb - 1) as nat);
        lemma_pow2_pos((eb - 1) as nat);
        lemma_mul_inequality(1, pb as int, one + fb);
        assert(one + fb <= (one + fb) * pb) by {
            assert(1 * (one + fb) == one + fb);
            assert(pb * (one + fb) == (one + fb) * pb) by (nonlinear_arith);
        }
        if ea > 0 {
            let pa = pow2((ea - 1) as nat);
            lemma_pow2_pos((ea - 1) as nat);
            lemma_pow2_unfold(ea);
            if ea < eb - 1 {
                lemma_pow2_strictly_increases(ea, (eb - 1) as nat);
            }
            assert(2 * pa <= pb);
            lemma_mul_strict_inequality(one + fa, 2 * one, pa as int);
            assert((2 * one) * pa == one * (2 * pa)) by (nonlinear_arith);
            lemma_mul_inequality((2 * pa) as int, pb as int, one);
            assert((2 * pa) * one == one * (2 * pa)) by (nonlinear_arith);
            assert(pb * one == one * pb) by (nonlinear_arith);
            lemma_mul_inequality(one, one + fb, pb as int);
        }
    }
}

/// The rank is the order of the finite values: a pattern that denotes the
/// lesser value has the lesser rank, and a pattern of lesser rank denotes no
/// greater value. Two patterns denote the same value only where they are the
/// same pattern, or the two zeros.
pub proof fn lemma_rank_orders_values(a: u64, b: u64)
    requires
        is_finite(a),
        is_finite(b),
    ensures
        value(a) < value(b) ==> rank(a) < rank(b),
        rank(a) <= rank(b) ==> value(a) <= value(b),
        value(a) == value(b) ==> a == b || value(a) == 0,
{
    if magnitude(a) < magnitude(b) {
        lemma_size_grows_with_magnitude(a, b);
    }
    if magnitude(b) < magnitude(a) {
        lemma_size_grows_with_magnitude(b, a);
    }
}

/// Every pattern that denotes a number ranks between the two infinities, and
/// a finite one strictly so; a pattern that denotes no number ranks outside
/// them.
pub proof fn lemma_rank_of_infinity(a: u64)
    ensures
        is_number(INFINITY) && !is_finite(INFINITY) && !is_negative(INFINITY),
        is_number(NEGATIVE_INFINITY) && !is_finite(NEGATIVE_INFINITY) && is_negative(
            NEGATIVE_INFINITY,
        ),
        is_number(a) <==> rank(NEGATIVE_INFINITY) <= rank(a) <= rank(INFINITY),
        is_finite(a) <==> rank(NEGATIVE_INFINITY) < rank(a) < rank(INFINITY),
{
}

} // verus!
