//! Depth samples.
//!
//! A depth sample is a single-precision number held as its IEEE 754 binary32
//! encoding: one sign bit, eight exponent bits, twenty-three fraction bits.
//! Everything here is integer work on that encoding.
use vstd::arithmetic::power2::{lemma2_to64, lemma_pow2_strictly_increases, pow2};
use vstd::bits::{lemma_u32_shl_is_mul, lemma_u32_shr_is_div};
use vstd::prelude::*;

verus! {

/// The encoding without its sign bit.
pub open spec fn magnitude(bits: u32) -> u32 {
    bits & 0x7fff_ffff
}

/// Whether the sign bit is set.
pub open spec fn is_negative(bits: u32) -> bool {
    bits & 0x8000_0000 != 0
}

/// Whether the encoding is not a number: all exponent bits set and a
/// fraction that is not zero.
pub open spec fn is_nan(bits: u32) -> bool {
    magnitude(bits) > 0x7f80_0000
}

/// An integer that orders the encodings as the numbers they stand for are
/// ordered. Both zeros have rank 0. Meaningless for a NaN.
pub open spec fn rank(bits: u32) -> int {
    if is_negative(bits) {
        -(magnitude(bits) as int)
    } else {
        magnitude(bits) as int
    }
}

/// `a > b` on the encoded numbers: false as soon as one of them is a NaN.
pub open spec fn greater(a: u32, b: u32) -> bool {
    !is_nan(a) && !is_nan(b) && rank(a) > rank(b)
}

/// `a < 0` on the encoded number: false for both zeros and for a NaN.
pub open spec fn below_zero(bits: u32) -> bool {
    greater(0, bits)
}

/// The biased exponent field.
pub open spec fn exponent(bits: u32) -> u32 {
    (bits >> 23) & 0xff
}

/// The significand as an integer: the fraction bits, with the hidden bit on
/// top unless the exponent field is zero.
pub open spec fn significand(bits: u32) -> u32 {
    if exponent(bits) == 0 {
        bits & 0x007f_ffff
    } else {
        (bits & 0x007f_ffff) | 0x0080_0000
    }
}

/// The encoded number rounded toward zero and clamped to `0..=u32::MAX`;
/// a NaN gives 0.
///
/// A number that is not a NaN is `significand * 2^(scale - 150)`, negated
/// when the sign bit is set, where `scale` is the exponent field, or 1 where
/// that field is zero. An infinity has the largest exponent field and so
/// lands beyond the clamp.
pub open spec fn level(bits: u32) -> int {
    let e = if exponent(bits) == 0 {
        1
    } else {
        exponent(bits) as int
    };
    let s = significand(bits) as int;
    let whole = if e >= 150 {
        s * pow2((e - 150) as nat)
    } else {
        s / (pow2((150 - e) as nat) as int)
    };
    if is_nan(bits) || is_negative(bits) {
        0
    } else if whole > u32::MAX {
        u32::MAX as int
    } else {
        whole
    }
}

/// Compares two depth samples: `a > b`.
pub fn depth_greater(a: u32, b: u32) -> (r: bool)
    ensures
        r == greater(a, b),
{
    let ma: u32 = a & 0x7fff_ffff;
    let mb: u32 = b & 0x7fff_ffff;
    if ma > 0x7f80_0000 || mb > 0x7f80_0000 {
        return false;
    }
    let na: bool = a & 0x8000_0000 != 0;
    let nb: bool = b & 0x8000_0000 != 0;
    if na {
        if nb {
            ma < mb
        } else {
            false
        }
    } else {
        if nb {
            ma > 0 || mb > 0
        } else {
            ma > mb
        }
    }
}

/// Tells whether an encoded number is less than zero.
pub fn is_below_zero(bits: u32) -> (r: bool)
    ensures
        r == below_zero(bits),
{
    depth_greater(0, bits)
}

/// Rounds a depth sample toward zero into `0..=u32::MAX`.
pub fn depth_level(bits: u32) -> (r: u32)
    ensures
        r == level(bits),
{
    let m: u32 = bits & 0x7fff_ffff;
    if m > 0x7f80_0000 || bits & 0x8000_0000 != 0 {
        return 0;
    }
    let e: u32 = (bits >> 23) & 0xff;
    let f: u32 = bits & 0x007f_ffff;
    assert(e <= 255 && f < 0x0080_0000) by (bit_vector)
        requires
            e == (bits >> 23) & 0xff,
            f == bits & 0x007f_ffff,
    ;
    proof {
        lemma2_to64();
    }
    if e < 127 {
        proof {
            let s = significand(bits);
            assert(s < 0x0100_0000) by (bit_vector)
                requires
                    s == f || s == f | 0x0080_0000,
                    f < 0x0080_0000,
            ;
            let k: nat = if e == 0 {
                149
            } else {
                (150 - e) as nat
            };
            if k > 24 {
                lemma_pow2_strictly_increases(24, k);
            }
            assert(s as int / (pow2(k) as int) == 0) by (nonlinear_arith)
                requires
                    0 <= s < 0x0100_0000,
                    pow2(k) >= 0x0100_0000,
            ;
        }
        return 0;
    }
    let s: u32 = f | 0x0080_0000;
    assert(0x0080_0000 <= s < 0x0100_0000) by (bit_vector)
        requires
            s == f | 0x0080_0000,
            f < 0x0080_0000,
    ;
    if e >= 159 {
        proof {
            if e - 150 > 9 {
                lemma_pow2_strictly_increases(9, (e - 150) as nat);
            }
            assert(s * pow2((e - 150) as nat) > u32::MAX) by (nonlinear_arith)
                requires
                    s >= 0x0080_0000,
                    pow2((e - 150) as nat) >= 0x200,
            ;
        }
        return u32::MAX;
    }
    if e >= 150 {
        let k: u32 = e - 150;
        proof {
            if k < 8 {
                lemma_pow2_strictly_increases(k as nat, 8);
            }
            assert(s * pow2(k as nat) <= u32::MAX) by (nonlinear_arith)
                requires
                    0 <= s < 0x0100_0000,
                    0 <= pow2(k as nat) <= 0x100,
            ;
            lemma_u32_shl_is_mul(s, k);
        }
        s << k
    } else {
        let k: u32 = 150 - e;
        proof {
            lemma_u32_shr_is_div(s, k);
        }
        s >> k
    }
}

} // verus!
