//! Bit-level views of IEEE 754 double-precision values.
//!
//! Ratings, probabilities and error values travel through this crate as the
//! 64-bit patterns of doubles. The few operations whose behaviour is plain
//! bit logic — classification, the ordering of two doubles, taking an
//! absolute value, and packing a small integer or a 53-bit fraction into a
//! double — are implemented and verified here against spec functions that
//! state the packing and ordering rules directly.

use vstd::prelude::*;

verus! {

use vstd::arithmetic::power2::{pow2, lemma2_to64, lemma_pow2_strictly_increases, lemma_pow2_adds};

/// Mask of everything but the sign bit.
pub const ABS_MASK: u64 = 0x7FFF_FFFF_FFFF_FFFF;

/// Mask of the 52 fraction bits.
pub const FRAC_MASK: u64 = 0x000F_FFFF_FFFF_FFFF;

pub open spec fn exp_field(b: u64) -> u64 {
    (b >> 52) & 0x7FF
}

pub open spec fn frac_field(b: u64) -> u64 {
    b & FRAC_MASK
}

pub open spec fn sign_bit(b: u64) -> bool {
    (b >> 63) == 1
}

pub open spec fn is_nan_bits(b: u64) -> bool {
    exp_field(b) == 0x7FF && frac_field(b) != 0
}

pub open spec fn is_infinite_bits(b: u64) -> bool {
    exp_field(b) == 0x7FF && frac_field(b) == 0
}

pub open spec fn is_zero_bits(b: u64) -> bool {
    b & ABS_MASK == 0
}

/// Magnitude (the pattern with the sign cleared), which for doubles of one
/// sign orders exactly as the values do.
pub open spec fn abs_bits(b: u64) -> u64 {
    b & ABS_MASK
}

/// The IEEE `<` relation on two doubles, read off their bit patterns:
/// false whenever a NaN is involved, the two zeros are equal, and otherwise
/// the sign decides, then the magnitude.
pub open spec fn lt_bits(a: u64, b: u64) -> bool {
    if is_nan_bits(a) || is_nan_bits(b) {
        false
    } else if is_zero_bits(a) && is_zero_bits(b) {
        false
    } else if sign_bit(a) != sign_bit(b) {
        sign_bit(a)
    } else if !sign_bit(a) {
        abs_bits(a) < abs_bits(b)
    } else {
        abs_bits(b) < abs_bits(a)
    }
}

/// Whether the pattern is a NaN.
pub fn f64_is_nan(b: u64) -> (r: bool)
    ensures
        r == is_nan_bits(b),
{
    (b >> 52) & 0x7FF == 0x7FF && b & FRAC_MASK != 0
}

/// Whether the pattern is one of the two infinities.
pub fn f64_is_infinite(b: u64) -> (r: bool)
    ensures
        r == is_infinite_bits(b),
{
    (b >> 52) & 0x7FF == 0x7FF && b & FRAC_MASK == 0
}

/// The IEEE `<` comparison on two bit patterns.
pub fn f64_lt(a: u64, b: u64) -> (r: bool)
    ensures
        r == lt_bits(a, b),
{
    proof {
        assert(a >> 63 == 0 || a >> 63 == 1) by (bit_vector);
        assert(b >> 63 == 0 || b >> 63 == 1) by (bit_vector);
    }
    if f64_is_nan(a) || f64_is_nan(b) {
        false
    } else if a & ABS_MASK == 0 && b & ABS_MASK == 0 {
        false
    } else if (a >> 63) != (b >> 63) {
        (a >> 63) == 1
    } else if (a >> 63) == 0 {
        a & ABS_MASK < b & ABS_MASK
    } else {
        b & ABS_MASK < a & ABS_MASK
    }
}

/// The IEEE absolute value: the sign bit cleared.
pub fn f64_abs(b: u64) -> (r: u64)
    ensures
        r == abs_bits(b),
{
    b & ABS_MASK
}

/// Index of the highest set bit (0 for inputs 0 and 1).
pub open spec fn spec_msb(m: u64) -> nat
    decreases m,
{
    if m < 2 {
        0
    } else {
        1 + spec_msb(m / 2)
    }
}

proof fn lemma_msb_from_bounds(m: u64, k: nat)
    requires
        pow2(k) <= m < pow2(k + 1),
    ensures
        spec_msb(m) == k,
    decreases k,
{
    lemma2_to64();
    if k == 0 {
        assert(m < 2);
    } else {
        assert(pow2(k) == 2 * pow2((k - 1) as nat)) by {
            lemma_pow2_adds(1, (k - 1) as nat);
            lemma2_to64();
        }
        assert(pow2(k + 1) == 2 * pow2(k)) by {
            lemma_pow2_adds(1, k);
            lemma2_to64();
        }
        assert(m >= 2);
        let h = m / 2;
        assert(pow2((k - 1) as nat) <= h < pow2(k));
        lemma_msb_from_bounds(h, (k - 1) as nat);
    }
}

/// 2 to the `k`, as a machine word.
pub fn pow2_u64(k: u64) -> (r: u64)
    requires
        k < 64,
    ensures
        r == pow2(k as nat),
{
    let mut i: u64 = 0;
    let mut r: u64 = 1;
    proof {
        lemma2_to64();
        vstd::arithmetic::power2::lemma2_to64_rest();
    }
    while i < k
        invariant
            i <= k < 64,
            r == pow2(i as nat),
        decreases k - i,
    {
        proof {
            lemma_pow2_adds(i as nat, 1);
            lemma2_to64();
            if i + 1 < 64 {
                lemma_pow2_strictly_increases((i + 1) as nat, 64);
            }
            vstd::arithmetic::power2::lemma2_to64_rest();
        }
        r = r * 2;
        i = i + 1;
    }
    r
}

/// The highest set bit sits between `pow2(msb)` and `pow2(msb + 1)`.
proof fn lemma_msb_bounds(m: u64)
    requires
        m >= 1,
    ensures
        pow2(spec_msb(m)) <= m < pow2(spec_msb(m) + 1),
        spec_msb(m) <= 63,
    decreases m,
{
    lemma2_to64();
    vstd::arithmetic::power2::lemma2_to64_rest();
    if m < 2 {
    } else {
        let h = m / 2;
        lemma_msb_bounds(h);
        let k = spec_msb(m);
        assert(k == 1 + spec_msb(h));
        lemma_pow2_adds((k - 1) as nat, 1);
        lemma_pow2_adds(k as nat, 1);
        vstd::arithmetic::div_mod::lemma_fundamental_div_mod(m as int, 2);
        if k > 63 {
            if k > 64 {
                lemma_pow2_strictly_increases(64, k as nat);
            }
            assert(pow2(64) <= pow2(k as nat));
            assert(false);
        }
    }
}

/// Position of the highest set bit of a positive word.
pub fn msb_u64(m: u64) -> (k: u64)
    requires
        m >= 1,
    ensures
        k == spec_msb(m),
        k <= 63,
        pow2(k as nat) <= m < pow2((k + 1) as nat),
{
    let mut k: u64 = 0;
    proof {
        lemma2_to64();
        vstd::arithmetic::power2::lemma2_to64_rest();
    }
    loop
        invariant
            k <= 63,
            m >= 1,
            pow2(k as nat) <= m,
        ensures
            k <= 63,
            pow2(k as nat) <= m,
            k == 63 || m < pow2((k + 1) as nat),
        decreases 64 - k,
    {
        if k == 63 {
            break;
        }
        let p = pow2_u64(k + 1);
        if m < p {
            break;
        }
        k = k + 1;
    }
    proof {
        if k == 63 && pow2((k + 1) as nat) <= m {
            vstd::arithmetic::power2::lemma2_to64_rest();
            assert(false);
        }
        lemma_msb_from_bounds(m, k as nat);
    }
    k
}

/// The double whose value is `fraction * 2^(e0 - 1023 - msb(fraction))`
/// normalised: exponent field `e0 + msb(fraction)`, fraction bits the bits
/// of `fraction` below its leading one, shifted up to width 52.
pub open spec fn pack_bits(m: u64, e0: u64) -> u64
    recommends
        1 <= m < pow2(53),
        e0 + spec_msb(m) <= 2046,
{
    (((e0 + spec_msb(m)) * pow2(52) + (m - pow2(spec_msb(m))) * pow2((52 - spec_msb(m)) as nat)) as u64)
}

/// Packs a positive integer below 2^53 into a normalised double layout with
/// exponent origin `e0`.
fn pack_f64(m: u64, e0: u64) -> (r: u64)
    requires
        1 <= m,
        m < pow2(53),
        900 <= e0 <= 1023,
    ensures
        r == pack_bits(m, e0),
{
    let k = msb_u64(m);
    proof {
        lemma2_to64();
        vstd::arithmetic::power2::lemma2_to64_rest();
        assert(k <= 52) by {
            if k >= 53 {
                if k > 53 {
                    lemma_pow2_strictly_increases(53, k as nat);
                }
                assert(pow2(53) <= pow2(k as nat));
            }
        }
    }
    let pk = pow2_u64(k);
    let scale = pow2_u64(52 - k);
    proof {
        lemma_pow2_adds(k as nat, 1);
        lemma2_to64();
        assert(m - pk < pow2(k as nat));
        lemma_pow2_adds(k as nat, (52 - k) as nat);
        assert((m - pk) * scale < pow2(k as nat) * scale) by {
            vstd::arithmetic::mul::lemma_mul_strict_inequality(
                (m - pk) as int, pow2(k as nat) as int, scale as int);
            vstd::arithmetic::power2::lemma_pow2_pos((52 - k) as nat);
        }
        vstd::arithmetic::power2::lemma2_to64_rest();
    }
    let frac = (m - pk) * scale;
    proof {
        assert((e0 + k) * pow2(52) <= 1075 * pow2(52)) by {
            vstd::arithmetic::mul::lemma_mul_inequality((e0 + k) as int, 1075, pow2(52) as int);
        }
    }
    let hi = (e0 + k) * 0x10000000000000u64;
    hi + frac
}

/// Bit pattern of the double holding the exact value of `m`, for `m` below
/// 2^53 (every such integer is exactly representable).
pub open spec fn f64_bits_of_u64(m: u64) -> u64
    recommends
        m < pow2(53),
{
    if m == 0 {
        0
    } else {
        pack_bits(m, 1023)
    }
}

/// Converts a small non-negative integer to the bit pattern of the equal
/// double.
pub fn f64_from_u64(m: u64) -> (r: u64)
    requires
        m < 0x20000000000000,
    ensures
        r == f64_bits_of_u64(m),
{
    proof {
        lemma2_to64();
        vstd::arithmetic::power2::lemma2_to64_rest();
    }
    if m == 0 {
        0
    } else {
        pack_f64(m, 1023)
    }
}

/// Bit pattern of the double holding the exact value of `d`.
pub open spec fn f64_bits_of_i64(d: i64) -> u64
    recommends
        -0x20000000000000 < d < 0x20000000000000,
{
    if d < 0 {
        (0x8000000000000000u64 + f64_bits_of_u64((-d) as u64)) as u64
    } else {
        f64_bits_of_u64(d as u64)
    }
}

/// Converts a small signed integer to the bit pattern of the equal double.
pub fn f64_from_i64(d: i64) -> (r: u64)
    requires
        -0x20000000000000 < d < 0x20000000000000,
    ensures
        r == f64_bits_of_i64(d),
{
    if d < 0 {
        let mag = f64_from_u64((-d) as u64);
        proof {
            lemma2_to64();
            vstd::arithmetic::power2::lemma2_to64_rest();
            lemma_pack_below_2_63((-d) as u64, 1023);
        }
        0x8000000000000000u64 + mag
    } else {
        f64_from_u64(d as u64)
    }
}

proof fn lemma_pack_below_2_63(m: u64, e0: u64)
    requires
        1 <= m < pow2(53),
        900 <= e0 <= 1023,
    ensures
        pack_bits(m, e0) < 0x8000000000000000u64,
{
    lemma2_to64();
    vstd::arithmetic::power2::lemma2_to64_rest();
    lemma_msb_bounds(m);
    let k = spec_msb(m);
    assert(k <= 52) by {
        if k >= 53 {
            if k > 53 {
                lemma_pow2_strictly_increases(53, k);
            }
            assert(pow2(53) <= pow2(k));
        }
    }
    assert(m - pow2(k) < pow2(k)) by {
        lemma_pow2_adds(k, 1);
    }
    assert((e0 + k) * pow2(52) + (m - pow2(k)) * pow2((52 - k) as nat) < 0x8000000000000000u64) by {
        assert(e0 + k <= 1075);
        vstd::arithmetic::mul::lemma_mul_inequality((e0 + k) as int, 1075, pow2(52) as int);
        assert((m - pow2(k)) * pow2((52 - k) as nat) < pow2(52)) by {
            lemma_pow2_adds(k, (52 - k) as nat);
            vstd::arithmetic::power2::lemma_pow2_pos((52 - k) as nat);
            vstd::arithmetic::mul::lemma_mul_strict_inequality(
                (m - pow2(k)) as int, pow2(k) as int, pow2((52 - k) as nat) as int);
        }
    }
}

/// The uniform draw in `[0, 1)` that a 64-bit word yields under the
/// multiply-based scheme: the top 53 bits over 2^53, packed exactly.
pub open spec fn u01_bits_of(raw: u64) -> u64 {
    if raw >> 11 == 0 {
        0
    } else {
        pack_bits(raw >> 11, 970)
    }
}

/// Turns a raw 64-bit draw into the bit pattern of `(raw >> 11) / 2^53`,
/// the double that the standard uniform `[0, 1)` sampler yields from that
/// word.
pub fn f64_from_raw_draw(raw: u64) -> (r: u64)
    ensures
        r == u01_bits_of(raw),
{
    let m = raw >> 11;
    proof {
        lemma2_to64();
        vstd::arithmetic::power2::lemma2_to64_rest();
        assert(raw >> 11 < 0x20000000000000) by (bit_vector);
    }
    if m == 0 {
        0
    } else {
        pack_f64(m, 970)
    }
}

} // verus!
