//! Binary64 numbers held by their bit patterns: the sign in the top bit, then
//! eleven bits of biased exponent, then fifty-two bits of fraction. Equality
//! and the conversions to and from 64-bit integers are computed on the bits.

use vstd::prelude::*;
use vstd::arithmetic::power2::*;

verus! {

/// The bit that holds the sign.
pub const SIGN_BIT: u64 = 0x8000_0000_0000_0000;

/// Two to the power 52: the weight of the lowest exponent bit, and the hidden
/// leading bit of a normal number's significand.
pub const FRACTION_UNIT: u64 = 0x10_0000_0000_0000;

/// The number of values of the exponent field.
pub const EXPONENT_SPAN: u64 = 0x800;

/// The exponent field of the infinities and of the values that are no number.
pub const EXPONENT_TOP: u64 = 0x7ff;

/// The exponent field of the numbers from one up to two.
pub const EXPONENT_BIAS: u64 = 1023;

/// Whether the sign bit is set.
pub open spec fn sign_of(bits: u64) -> bool {
    bits >= SIGN_BIT
}

/// The biased exponent field.
pub open spec fn exponent_of(bits: u64) -> int {
    (bits as int / FRACTION_UNIT as int) % EXPONENT_SPAN as int
}

/// The fraction field.
pub open spec fn fraction_of(bits: u64) -> int {
    bits as int % FRACTION_UNIT as int
}

/// The pattern stands for no number.
pub open spec fn is_nan(bits: u64) -> bool {
    exponent_of(bits) == EXPONENT_TOP && fraction_of(bits) != 0
}

/// The pattern stands for zero, of either sign.
pub open spec fn is_zero(bits: u64) -> bool {
    exponent_of(bits) == 0 && fraction_of(bits) == 0
}

/// Equality of two binary64 numbers: what is no number equals nothing, the
/// two zeros equal each other, and otherwise the patterns must be the same.
pub open spec fn float_equal(a: u64, b: u64) -> bool {
    !is_nan(a) && !is_nan(b) && (a == b || (is_zero(a) && is_zero(b)))
}

/// The whole part of the magnitude of a finite number below two to the 63.
pub open spec fn magnitude_floor(bits: u64) -> int {
    let e = exponent_of(bits);
    let significand = FRACTION_UNIT + fraction_of(bits);
    if e < EXPONENT_BIAS {
        0
    } else if e >= EXPONENT_BIAS + 52 {
        significand * pow2((e - EXPONENT_BIAS - 52) as nat)
    } else {
        significand / pow2((EXPONENT_BIAS + 52 - e) as nat) as int
    }
}

/// The 64-bit integer that a binary64 number converts to: its value cut
/// towards zero, the nearest end of the range where the value lies outside
/// it, and zero for what is no number.
pub open spec fn float_to_integer(bits: u64) -> int {
    if is_nan(bits) {
        0
    } else if exponent_of(bits) >= EXPONENT_BIAS + 63 {
        if sign_of(bits) {
            i64::MIN as int
        } else {
            i64::MAX as int
        }
    } else if sign_of(bits) {
        -magnitude_floor(bits)
    } else {
        magnitude_floor(bits)
    }
}

/// The position of the highest set bit of a positive number.
pub open spec fn top_bit(n: nat) -> nat
    decreases n,
{
    if n < 2 {
        0
    } else {
        1 + top_bit(n / 2)
    }
}

/// The 53-bit significand of the binary64 number nearest to `n`, whose highest
/// set bit is at `e`. A number of up to 53 bits is moved up unchanged. A longer
/// one loses its low bits and is rounded to the nearest kept value, a tie going
/// to the even one; the result may then be two to the 53.
pub open spec fn rounded_significand(n: nat, e: nat) -> int {
    if e <= 52 {
        (n * pow2((52 - e) as nat)) as int
    } else {
        let cut = pow2((e - 52) as nat) as int;
        let kept = n as int / cut;
        let lost = n as int % cut;
        if 2 * lost > cut || (2 * lost == cut && kept % 2 == 1) {
            kept + 1
        } else {
            kept
        }
    }
}

/// The bit pattern of the binary64 number that a 64-bit integer converts to:
/// the nearest one, a tie going to the even significand. A significand that
/// rounding carried to two to the 53 adds one to the exponent field and leaves
/// the fraction zero, as the sum below does by itself.
pub open spec fn integer_to_float(i: int) -> u64 {
    if i == 0 {
        0
    } else {
        let n = (if i < 0 {
            -i
        } else {
            i
        }) as nat;
        let e = top_bit(n);
        let body = (e + EXPONENT_BIAS) * FRACTION_UNIT + (rounded_significand(n, e) - FRACTION_UNIT);
        if i < 0 {
            (SIGN_BIT + body) as u64
        } else {
            body as u64
        }
    }
}

/// A positive number lies between the power of two of its highest set bit and
/// the next power.
pub proof fn lemma_top_bit_bounds(n: nat)
    requires
        n >= 1,
    ensures
        pow2(top_bit(n)) <= n < pow2(top_bit(n) + 1),
    decreases n,
{
    lemma2_to64();
    if n < 2 {
    } else {
        lemma_top_bit_bounds(n / 2);
        lemma_pow2_unfold(top_bit(n));
        lemma_pow2_unfold(top_bit(n) + 1);
    }
}

/// The power of two with the given exponent.
fn power_of_two(k: u64) -> (r: u64)
    requires
        k <= 63,
    ensures
        r == pow2(k as nat),
{
    proof {
        lemma2_to64();
        lemma_pow2_strictly_increases(k as nat, 64);
        vstd::bits::lemma_u64_shl_is_mul(1, k);
    }
    1u64 << k
}

/// Whether the pattern stands for no number.
pub fn bits_are_nan(bits: u64) -> (r: bool)
    ensures
        r == is_nan(bits),
{
    (bits / FRACTION_UNIT) % EXPONENT_SPAN == EXPONENT_TOP && bits % FRACTION_UNIT != 0
}

/// Whether the pattern stands for a zero.
pub fn bits_are_zero(bits: u64) -> (r: bool)
    ensures
        r == is_zero(bits),
{
    (bits / FRACTION_UNIT) % EXPONENT_SPAN == 0 && bits % FRACTION_UNIT == 0
}

/// Whether two binary64 numbers, given by their bits, are equal.
pub fn float_bits_equal(a: u64, b: u64) -> (r: bool)
    ensures
        r == float_equal(a, b),
{
    if bits_are_nan(a) || bits_are_nan(b) {
        false
    } else {
        a == b || (bits_are_zero(a) && bits_are_zero(b))
    }
}

/// Converts a binary64 number, given by its bits, to a 64-bit integer.
pub fn float_bits_to_integer(bits: u64) -> (r: i64)
    ensures
        r == float_to_integer(bits),
{
    let negative = bits >= SIGN_BIT;
    let e: u64 = (bits / FRACTION_UNIT) % EXPONENT_SPAN;
    let fraction: u64 = bits % FRACTION_UNIT;
    if e == EXPONENT_TOP && fraction != 0 {
        return 0;
    }
    if e >= EXPONENT_BIAS + 63 {
        return if negative {
            i64::MIN
        } else {
            i64::MAX
        };
    }
    if e < EXPONENT_BIAS {
        return 0;
    }
    let significand: u64 = FRACTION_UNIT + fraction;
    let magnitude: u64 = if e >= EXPONENT_BIAS + 52 {
        let scale = power_of_two(e - EXPONENT_BIAS - 52);
        proof {
            lemma2_to64();
            if e < EXPONENT_BIAS + 62 {
                lemma_pow2_strictly_increases((e - EXPONENT_BIAS - 52) as nat, 10);
            }
            assert(significand * scale < 0x20_0000_0000_0000 * 0x400) by (nonlinear_arith)
                requires
                    significand < 0x20_0000_0000_0000,
                    scale <= 0x400,
            ;
        }
        significand * scale
    } else {
        let scale = power_of_two(EXPONENT_BIAS + 52 - e);
        proof {
            lemma_pow2_pos((EXPONENT_BIAS + 52 - e) as nat);
            assert(significand / scale <= significand) by (nonlinear_arith)
                requires
                    scale >= 1,
            ;
        }
        significand / scale
    };
    assert(magnitude == magnitude_floor(bits));
    assert(magnitude < 0x8000_0000_0000_0000);
    if negative {
        -(magnitude as i64)
    } else {
        magnitude as i64
    }
}

/// The position of the highest set bit of a positive number.
fn highest_bit(n: u64) -> (e: u64)
    requires
        n >= 1,
    ensures
        e == top_bit(n as nat),
        e <= 63,
        pow2(e as nat) <= n < pow2(e as nat + 1),
{
    let mut rest: u64 = n;
    let mut e: u64 = 0;
    proof {
        lemma2_to64();
    }
    while rest >= 2
        invariant
            rest >= 1,
            e <= 63,
            rest < pow2((64 - e) as nat),
            top_bit(n as nat) == e + top_bit(rest as nat),
        decreases rest,
    {
        proof {
            lemma2_to64();
            lemma_pow2_unfold((64 - e) as nat);
        }
        rest = rest / 2;
        e += 1;
    }
    proof {
        lemma_top_bit_bounds(n as nat);
    }
    e
}

/// Converts a 64-bit integer to the bits of the nearest binary64 number.
pub fn integer_to_float_bits(i: i64) -> (bits: u64)
    ensures
        bits == integer_to_float(i as int),
{
    if i == 0 {
        return 0;
    }
    let negative = i < 0;
    let n: u64 = if negative {
        (-(i + 1)) as u64 + 1
    } else {
        i as u64
    };
    let e = highest_bit(n);
    let significand: u64 = if e <= 52 {
        let scale = power_of_two(52 - e);
        proof {
            lemma_pow2_pos((52 - e) as nat);
            lemma_pow2_adds(e as nat + 1, (52 - e) as nat);
            lemma_pow2_adds(e as nat, (52 - e) as nat);
            lemma2_to64_rest();
            assert(n * scale < pow2(e as nat + 1) * scale) by (nonlinear_arith)
                requires
                    n < pow2(e as nat + 1),
                    scale > 0,
            ;
            assert(n * scale >= pow2(e as nat) * scale) by (nonlinear_arith)
                requires
                    n >= pow2(e as nat),
                    scale > 0,
            ;
        }
        n * scale
    } else {
        let cut = power_of_two(e - 52);
        proof {
            lemma_pow2_pos((e - 52) as nat);
        }
        let kept: u64 = n / cut;
        let lost: u64 = n % cut;
        proof {
            lemma_pow2_adds(52, (e - 52) as nat);
            lemma_pow2_adds(53, (e - 52) as nat);
            lemma2_to64_rest();
            lemma2_to64();
            lemma_pow2_strictly_increases((e - 52) as nat, 12);
            assert(kept >= 0x10_0000_0000_0000 && kept < 0x20_0000_0000_0000) by (nonlinear_arith)
                requires
                    kept == n / cut,
                    cut > 0,
                    n >= 0x10_0000_0000_0000 * cut,
                    n < 0x20_0000_0000_0000 * cut,
            ;
        }
        if 2 * lost > cut || (2 * lost == cut && kept % 2 == 1) {
            kept + 1
        } else {
            kept
        }
    };
    assert(significand == rounded_significand(n as nat, e as nat));
    assert(FRACTION_UNIT <= significand <= 2 * FRACTION_UNIT);
    let body: u64 = (e + EXPONENT_BIAS) * FRACTION_UNIT + (significand - FRACTION_UNIT);
    if negative {
        SIGN_BIT + body
    } else {
        body
    }
}

} // verus!
