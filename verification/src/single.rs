//! Single-precision numbers by their bit patterns.
//!
//! Heights, positions and matrix cells are carried through this library as the
//! 32 bits that the files hold. The few decisions that depend on their numeric
//! value are taken on those bits; the value itself is the integer
//! [`scaled`], the number in units of 2^-149, the smallest positive step.
use vstd::prelude::*;
use vstd::arithmetic::mul::*;
use vstd::arithmetic::power2::*;

verus! {

/// Bit pattern of the tolerance 1e-3.
pub const MILLI_BITS: u32 = 0x3A83_126F;

/// Bit pattern of 1.
pub const ONE_BITS: u32 = 0x3F80_0000;

/// Bit pattern of positive infinity.
pub const INFINITY_BITS: u32 = 0x7F80_0000;

/// Bit pattern of negative infinity.
pub const NEG_INFINITY_BITS: u32 = 0xFF80_0000;

/// The pattern without its sign bit.
pub open spec fn magnitude(bits: u32) -> u32 {
    (bits % 0x8000_0000) as u32
}

pub open spec fn is_negative(bits: u32) -> bool {
    bits >= 0x8000_0000
}

pub open spec fn is_nan(bits: u32) -> bool {
    magnitude(bits) > INFINITY_BITS
}

pub open spec fn is_infinite(bits: u32) -> bool {
    magnitude(bits) == INFINITY_BITS
}

/// The absolute value that a sign-free pattern stands for, in units of 2^-149.
pub open spec fn scaled_magnitude(mag: u32) -> int {
    let exponent = mag as int / 0x80_0000;
    let fraction = mag as int % 0x80_0000;
    if exponent == 0 {
        fraction
    } else {
        (0x80_0000 + fraction) * pow2((exponent - 1) as nat)
    }
}

/// The value that a pattern stands for, in units of 2^-149. Infinities take the
/// place after the largest finite number.
pub open spec fn scaled(bits: u32) -> int {
    if is_negative(bits) {
        -scaled_magnitude(magnitude(bits))
    } else {
        scaled_magnitude(magnitude(bits))
    }
}

/// The pattern with the opposite sign.
pub open spec fn negated(bits: u32) -> u32 {
    if is_negative(bits) {
        (bits - 0x8000_0000) as u32
    } else {
        (bits + 0x8000_0000) as u32
    }
}

proof fn scaled_by_parts(mag: u32, exponent: int, fraction: int)
    requires
        mag == exponent * 0x80_0000 + fraction,
        0 < exponent,
        0 <= fraction < 0x80_0000,
    ensures
        scaled_magnitude(mag) == (0x80_0000 + fraction) * pow2((exponent - 1) as nat),
{
    assert(mag as int / 0x80_0000 == exponent && mag as int % 0x80_0000 == fraction);
}

/// Sign-free patterns are ordered as the numbers they stand for.
pub proof fn scaled_magnitude_is_monotone(a: u32, b: u32)
    requires
        a < b,
    ensures
        0 <= scaled_magnitude(a) < scaled_magnitude(b),
{
    let (ea, fa) = (a as int / 0x80_0000, a as int % 0x80_0000);
    let (eb, fb) = (b as int / 0x80_0000, b as int % 0x80_0000);
    assert(ea <= eb);
    lemma2_to64();
    if ea > 0 {
        lemma_pow2_pos((ea - 1) as nat);
        assert(0 <= (0x80_0000 + fa) * pow2((ea - 1) as nat)) by (nonlinear_arith)
            requires
                0 <= fa,
                pow2((ea - 1) as nat) > 0,
        ;
    }
    if eb > 0 {
        lemma_pow2_pos((eb - 1) as nat);
        if ea == eb {
            lemma_mul_strict_inequality(
                0x80_0000 + fa,
                0x80_0000 + fb,
                pow2((eb - 1) as nat) as int,
            );
        } else {
            lemma_mul_inequality(0x80_0000, 0x80_0000 + fb, pow2((eb - 1) as nat) as int);
            if ea == 0 {
                lemma_mul_inequality(1, pow2((eb - 1) as nat) as int, 0x80_0000);
                assert(pow2((eb - 1) as nat) * 0x80_0000 == 0x80_0000 * pow2((eb - 1) as nat))
                    by (nonlinear_arith);
            } else {
                lemma_pow2_unfold(ea as nat);
                lemma_mul_strict_inequality(
                    0x80_0000 + fa,
                    0x100_0000,
                    pow2((ea - 1) as nat) as int,
                );
                assert(0x100_0000 * pow2((ea - 1) as nat) == 0x80_0000 * pow2(ea as nat));
                if ea < eb - 1 {
                    lemma_pow2_strictly_increases(ea as nat, (eb - 1) as nat);
                }
                assert(0x80_0000 * pow2(ea as nat) <= 0x80_0000 * pow2((eb - 1) as nat))
                    by (nonlinear_arith)
                    requires
                        pow2(ea as nat) <= pow2((eb - 1) as nat),
                ;
            }
        }
    }
}

pub proof fn magnitudes_are_nonnegative()
    ensures
        forall|mag: u32| 0 <= #[trigger] scaled_magnitude(mag),
{
    assert forall|mag: u32| 0 <= #[trigger] scaled_magnitude(mag) by {
        if mag > 0 {
            scaled_magnitude_is_monotone(0, mag);
        }
    }
}

/// Changing the sign twice restores the pattern, and once negates the value.
pub proof fn negation_is_an_involution(bits: u32)
    ensures
        negated(negated(bits)) == bits,
        scaled(negated(bits)) == -scaled(bits),
{
    assert(magnitude(negated(bits)) == magnitude(bits));
}

/// Flips the sign bit.
pub fn negate(bits: u32) -> (r: u32)
    ensures
        r == negated(bits),
{
    if bits >= 0x8000_0000 {
        bits - 0x8000_0000
    } else {
        bits + 0x8000_0000
    }
}

/// Whether the number lies closer to zero than the tolerance.
pub fn is_near_zero(bits: u32) -> (r: bool)
    ensures
        r == (scaled_magnitude(magnitude(bits)) < scaled_magnitude(MILLI_BITS)),
{
    let mag: u32 = bits % 0x8000_0000;
    proof {
        if mag < MILLI_BITS {
            scaled_magnitude_is_monotone(mag, MILLI_BITS);
        } else if mag > MILLI_BITS {
            scaled_magnitude_is_monotone(MILLI_BITS, mag);
        }
    }
    mag < MILLI_BITS
}

proof fn near_one_bounds()
    ensures
        scaled_magnitude(ONE_BITS) - scaled_magnitude((ONE_BITS - 16777) as u32)
            < scaled_magnitude(MILLI_BITS),
        scaled_magnitude(ONE_BITS) - scaled_magnitude((ONE_BITS - 16778) as u32)
            >= scaled_magnitude(MILLI_BITS),
        scaled_magnitude((ONE_BITS + 8388) as u32) - scaled_magnitude(ONE_BITS)
            < scaled_magnitude(MILLI_BITS),
        scaled_magnitude((ONE_BITS + 8389) as u32) - scaled_magnitude(ONE_BITS)
            >= scaled_magnitude(MILLI_BITS),
        scaled_magnitude(ONE_BITS) >= scaled_magnitude(MILLI_BITS),
{
    lemma2_to64();
    let p = pow2(116) as int;
    lemma_pow2_pos(116);
    lemma_pow2_adds(116, 10);
    lemma_pow2_adds(116, 9);
    scaled_by_parts(MILLI_BITS, 117, 0x3_126F);
    scaled_by_parts(ONE_BITS, 127, 0);
    scaled_by_parts((ONE_BITS + 8388) as u32, 127, 8388);
    scaled_by_parts((ONE_BITS + 8389) as u32, 127, 8389);
    scaled_by_parts((ONE_BITS - 16777) as u32, 126, 0x80_0000 - 16777);
    scaled_by_parts((ONE_BITS - 16778) as u32, 126, 0x80_0000 - 16778);
    assert(scaled_magnitude(MILLI_BITS) == 0x83_126F * p);
    assert(scaled_magnitude(ONE_BITS) == 8589934592 * p);
    assert(scaled_magnitude((ONE_BITS + 8388) as u32) == 8598523904 * p);
    assert(scaled_magnitude((ONE_BITS + 8389) as u32) == 8598524928 * p);
    assert(scaled_magnitude((ONE_BITS - 16777) as u32) == 8581344768 * p);
    assert(scaled_magnitude((ONE_BITS - 16778) as u32) == 8581344256 * p);
}

/// Whether the number differs from 1 by less than the tolerance.
pub fn is_near_one(bits: u32) -> (r: bool)
    ensures
        r == (-scaled(MILLI_BITS) < scaled(bits) - scaled(ONE_BITS) < scaled(MILLI_BITS)),
{
    proof {
        near_one_bounds();
        let mag = magnitude(bits);
        if mag < ONE_BITS - 16777 {
            if mag < ONE_BITS - 16778 {
                scaled_magnitude_is_monotone(mag, (ONE_BITS - 16778) as u32);
            }
        } else if mag > ONE_BITS + 8388 {
            if mag > ONE_BITS + 8389 {
                scaled_magnitude_is_monotone((ONE_BITS + 8389) as u32, mag);
            }
        } else {
            if ONE_BITS - 16777 < mag {
                scaled_magnitude_is_monotone((ONE_BITS - 16777) as u32, mag);
            }
            if mag < ONE_BITS + 8388 {
                scaled_magnitude_is_monotone(mag, (ONE_BITS + 8388) as u32);
            }
        }
        if mag > 0 {
            scaled_magnitude_is_monotone(0, mag);
        }
    }
    ONE_BITS - 16777 <= bits && bits <= ONE_BITS + 8388
}

/// Whether the single-precision difference of two numbers exceeds 1e-3 in
/// absolute value.
///
/// A difference is rounded to the nearest number, ties to the even pattern. The
/// tolerance has an odd pattern, so the rounded difference exceeds it exactly
/// when the true difference reaches the middle between the tolerance and the
/// number after it, which is 2^116 units further. A difference that involves
/// not-a-number, or two equal infinities, is not a number and exceeds nothing.
pub open spec fn differ_noticeably(a: u32, b: u32) -> bool {
    if is_nan(a) || is_nan(b) {
        false
    } else if is_infinite(a) || is_infinite(b) {
        a != b
    } else {
        let d = scaled(a) - scaled(b);
        2 * (if d < 0 { -d } else { d }) >= 2 * scaled(MILLI_BITS) + pow2(116)
    }
}

spec fn grain() -> int {
    pow2(115) as int
}

spec fn unit() -> int {
    pow2(92) as int
}

proof fn tolerance_in_grains()
    ensures
        2 * scaled(MILLI_BITS) + pow2(116) == 2 * (17179871 * grain()),
        grain() == 0x80_0000 * unit(),
        unit() > 0,
{
    lemma2_to64();
    scaled_by_parts(MILLI_BITS, 117, 0x3_126F);
    lemma_pow2_pos(92);
    lemma_pow2_adds(115, 1);
    lemma_pow2_adds(92, 23);
}

/// A number below 2^15 either is a multiple of the grain or is below 2^23 grains.
proof fn grains_of(mag: u32)
    ensures
        (exists|m: int| scaled_magnitude(mag) == #[trigger] (m * grain())) || scaled_magnitude(mag)
            < 0x80_0000 * grain(),
{
    lemma2_to64();
    let e = mag as int / 0x80_0000;
    let f = mag as int % 0x80_0000;
    lemma_pow2_pos(115);
    if e >= 116 {
        lemma_pow2_adds(115, (e - 116) as nat);
        let m = (0x80_0000 + f) * pow2((e - 116) as nat);
        assert(scaled_magnitude(mag) == m * grain()) by (nonlinear_arith)
            requires
                scaled_magnitude(mag) == (0x80_0000 + f) * (pow2(115) * pow2((e - 116) as nat)),
                m == (0x80_0000 + f) * pow2((e - 116) as nat),
                grain() == pow2(115),
        ;
    } else {
        let top = (116 * 0x80_0000) as u32;
        scaled_magnitude_is_monotone(mag, top);
        scaled_by_parts(top, 116, 0);
    }
}

spec fn fixed_spec(mag: u32) -> int {
    if mag == 0 {
        0
    } else if mag < 93 * 0x80_0000 {
        1
    } else {
        (0x80_0000 + mag as int % 0x80_0000) * pow2((mag as int / 0x80_0000 - 93) as nat)
    }
}

proof fn fixed_is_exact_or_tiny(mag: u32)
    ensures
        mag >= 93 * 0x80_0000 ==> fixed_spec(mag) * unit() == scaled_magnitude(mag),
        mag < 93 * 0x80_0000 ==> scaled_magnitude(mag) < grain() && (mag > 0
            ==> scaled_magnitude(mag) > 0),
        mag == 0 ==> scaled_magnitude(mag) == 0,
{
    lemma2_to64();
    if mag >= 93 * 0x80_0000 {
        let e = mag as int / 0x80_0000;
        let f = mag as int % 0x80_0000;
        lemma_pow2_adds(92, (e - 93) as nat);
        assert(fixed_spec(mag) * unit() == scaled_magnitude(mag)) by (nonlinear_arith)
            requires
                fixed_spec(mag) == (0x80_0000 + f) * pow2((e - 93) as nat),
                scaled_magnitude(mag) == (0x80_0000 + f) * (pow2(92) * pow2((e - 93) as nat)),
                unit() == pow2(92),
        ;
    } else {
        let top = (93 * 0x80_0000) as u32;
        scaled_magnitude_is_monotone(mag, top);
        scaled_by_parts(top, 93, 0);
        tolerance_in_grains();
        if mag > 0 {
            scaled_magnitude_is_monotone(0, mag);
        }
    }
}

/// Replacing a tiny number by one unit of its sign does not change on which side
/// of the threshold its distance from another number lies.
proof fn tiny_side_is_unaffected(x: int, tiny: int, stand_in: int, threshold: int, g: int, u: int)
    requires
        0 < u < g,
        threshold == 17179871 * g,
        -g < tiny < g,
        stand_in == (if tiny > 0 {
            u
        } else if tiny < 0 {
            -u
        } else {
            0
        }),
        (exists|m: int| x == #[trigger] (m * g)) || -0x80_0000 * g < x < 0x80_0000 * g,
    ensures
        x - tiny >= threshold <==> x - stand_in >= threshold,
        tiny - x >= threshold <==> stand_in - x >= threshold,
{
    if exists|m: int| x == #[trigger] (m * g) {
        let m = choose|m: int| x == #[trigger] (m * g);
        let t: int = 17179871;
        assert(m * g - t * g == (m - t) * g) by (nonlinear_arith);
        assert(m * g + t * g == (m + t) * g) by (nonlinear_arith);
        assert(m == -t ==> m * g == -(t * g)) by (nonlinear_arith);
        assert(m > t ==> (m - t) * g >= g) by (nonlinear_arith)
            requires
                g > 0,
        ;
        assert(m < t ==> (m - t) * g <= -g) by (nonlinear_arith)
            requires
                g > 0,
        ;
        assert(m > -t ==> (m + t) * g >= g) by (nonlinear_arith)
            requires
                g > 0,
        ;
        assert(m < -t ==> (m + t) * g <= -g) by (nonlinear_arith)
            requires
                g > 0,
        ;
    }
}

spec fn fixed_signed(bits: u32) -> int {
    if is_negative(bits) {
        -fixed_spec(magnitude(bits))
    } else {
        fixed_spec(magnitude(bits))
    }
}

proof fn signed_grains_of(bits: u32)
    ensures
        (exists|m: int| scaled(bits) == #[trigger] (m * grain())) || -0x80_0000 * grain() < scaled(
            bits,
        ) < 0x80_0000 * grain(),
{
    magnitudes_are_nonnegative();
    grains_of(magnitude(bits));
    tolerance_in_grains();
    let s = scaled_magnitude(magnitude(bits));
    if exists|m: int| s == #[trigger] (m * grain()) {
        let m = choose|m: int| s == #[trigger] (m * grain());
        assert((-m) * grain() == -(m * grain())) by (nonlinear_arith);
        assert(scaled(bits) == m * grain() || scaled(bits) == (-m) * grain());
    }
}

/// The fixed-point images of two numbers are far apart exactly when the numbers are.
proof fn fixed_decides(a: u32, b: u32)
    ensures
        scaled(a) - scaled(b) >= 17179871 * grain() <==> fixed_signed(a) - fixed_signed(b)
            >= 17179871 * 0x80_0000,
        scaled(b) - scaled(a) >= 17179871 * grain() <==> fixed_signed(b) - fixed_signed(a)
            >= 17179871 * 0x80_0000,
{
    let (g, u) = (grain(), unit());
    tolerance_in_grains();
    fixed_is_exact_or_tiny(magnitude(a));
    fixed_is_exact_or_tiny(magnitude(b));
    signed_grains_of(a);
    signed_grains_of(b);
    let (fa, fb) = (fixed_signed(a), fixed_signed(b));
    assert((-fixed_spec(magnitude(a))) * u == -(fixed_spec(magnitude(a)) * u)) by (nonlinear_arith);
    assert((-fixed_spec(magnitude(b))) * u == -(fixed_spec(magnitude(b)) * u)) by (nonlinear_arith);
    let k: int = 17179871int * 0x80_0000int;
    assert(17179871 * g == k * u);
    assert(fa * u - fb * u == (fa - fb) * u) by (nonlinear_arith);
    assert((fa - fb) * u >= k * u <==> fa - fb >= k) by (nonlinear_arith)
        requires
            u > 0,
    ;
    assert((fb - fa) * u >= k * u <==> fb - fa >= k) by (nonlinear_arith)
        requires
            u > 0,
    ;
    assert(fb * u - fa * u == (fb - fa) * u) by (nonlinear_arith);
    let ta = magnitude(a) < 93 * 0x80_0000;
    let tb = magnitude(b) < 93 * 0x80_0000;
    if ta && !tb {
        tiny_side_is_unaffected(scaled(b), scaled(a), fa * u, 17179871 * g, g, u);
    }
    if tb && !ta {
        tiny_side_is_unaffected(scaled(a), scaled(b), fb * u, 17179871 * g, g, u);
    }
}

/// A large number is at least the threshold away from every other number.
proof fn large_numbers_lie_apart(a: u32, b: u32)
    requires
        magnitude(a) >= 142 * 0x80_0000,
        magnitude(b) <= magnitude(a),
        a != b,
    ensures
        scaled(a) - scaled(b) >= 17179871 * grain() || scaled(b) - scaled(a) >= 17179871 * grain(),
{
    lemma2_to64();
    magnitudes_are_nonnegative();
    let (ma, mb) = (magnitude(a), magnitude(b));
    let prev = (ma - 1) as u32;
    let e = prev as int / 0x80_0000;
    let f = prev as int % 0x80_0000;
    tolerance_in_grains();
    lemma_pow2_adds(115, 25);
    lemma_pow2_pos((e - 1) as nat);
    if e > 141 {
        lemma_pow2_strictly_increases(140, (e - 1) as nat);
    }
    assert(pow2((e - 1) as nat) >= 0x200_0000 * grain());
    assert(scaled_magnitude(ma) - scaled_magnitude(prev) >= pow2((e - 1) as nat)) by {
        let p = pow2((e - 1) as nat) as int;
        assert(scaled_magnitude(prev) == (0x80_0000 + f) * p);
        if f < 0x7F_FFFF {
            scaled_by_parts(ma, e, f + 1);
            assert((0x80_0000 + f + 1) * p - (0x80_0000 + f) * p == p) by (nonlinear_arith);
        } else {
            scaled_by_parts(ma, e + 1, 0);
            lemma_pow2_unfold(e as nat);
            assert(scaled_magnitude(prev) == 0xFF_FFFF * p);
            assert(scaled_magnitude(ma) == 0x80_0000 * pow2(e as nat));
        }
    }
    if mb < prev {
        scaled_magnitude_is_monotone(mb, prev);
    }
}

fn fixed_magnitude(mag: u32) -> (r: u128)
    requires
        mag < 142 * 0x80_0000,
    ensures
        r == fixed_spec(mag),
        r < 0x100_0000 * 0x1_0000_0000_0000,
{
    if mag == 0 {
        return 0;
    }
    if mag < 93 * 0x80_0000 {
        return 1;
    }
    let shift: u32 = mag / 0x80_0000 - 93;
    let mut p: u128 = 1;
    let mut k: u32 = 0;
    proof {
        lemma2_to64();
        lemma_pow2_adds(32, 16);
    }
    while k < shift
        invariant
            k <= shift,
            shift <= 48,
            p == pow2(k as nat),
            p <= 0x1_0000_0000_0000,
            pow2(48) == 0x1_0000_0000_0000,
        decreases shift - k,
    {
        proof {
            lemma_pow2_unfold((k + 1) as nat);
            if k + 1 < 48 {
                lemma_pow2_strictly_increases((k + 1) as nat, 48);
            }
        }
        p = p * 2;
        k += 1;
    }
    proof {
        lemma_pow2_pos(shift as nat);
    }
    let m: u128 = 0x80_0000 + (mag % 0x80_0000) as u128;
    assert(m * p < 0x100_0000 * 0x1_0000_0000_0000) by (nonlinear_arith)
        requires
            m < 0x100_0000,
            0 < p <= 0x1_0000_0000_0000,
    ;
    m * p
}

fn fixed(bits: u32) -> (r: i128)
    requires
        magnitude(bits) < 142 * 0x80_0000,
    ensures
        r == fixed_signed(bits),
        -0x100_0000_0000_0000_0000 < r < 0x100_0000_0000_0000_0000,
{
    let m: i128 = fixed_magnitude(bits % 0x8000_0000) as i128;
    if bits >= 0x8000_0000 {
        -m
    } else {
        m
    }
}

/// Whether the difference of two numbers exceeds 1e-3 in absolute value.
pub fn exceeds_milli(a: u32, b: u32) -> (r: bool)
    ensures
        r == differ_noticeably(a, b),
{
    let ma: u32 = a % 0x8000_0000;
    let mb: u32 = b % 0x8000_0000;
    if ma > INFINITY_BITS || mb > INFINITY_BITS {
        return false;
    }
    if ma == INFINITY_BITS || mb == INFINITY_BITS {
        return a != b;
    }
    proof {
        tolerance_in_grains();
        lemma_pow2_pos(115);
    }
    if a == b {
        return false;
    }
    if ma >= 142 * 0x80_0000 || mb >= 142 * 0x80_0000 {
        proof {
            if mb <= ma {
                large_numbers_lie_apart(a, b);
            } else {
                large_numbers_lie_apart(b, a);
            }
        }
        return true;
    }
    proof {
        fixed_decides(a, b);
    }
    let d: i128 = fixed(a) - fixed(b);
    let limit: i128 = 17179871 * 0x80_0000;
    d >= limit || -d >= limit
}

/// The smaller of two numbers; not-a-number loses against a number.
pub open spec fn lesser(a: u32, b: u32) -> u32 {
    if is_nan(b) {
        a
    } else if is_nan(a) || scaled(b) < scaled(a) {
        b
    } else {
        a
    }
}

/// The larger of two numbers; not-a-number loses against a number.
pub open spec fn greater(a: u32, b: u32) -> u32 {
    if is_nan(b) {
        a
    } else if is_nan(a) || scaled(b) > scaled(a) {
        b
    } else {
        a
    }
}

/// The smallest number of a sequence, infinity if it has none.
pub open spec fn lowest(s: Seq<u32>) -> u32
    decreases s.len(),
{
    if s.len() == 0 {
        INFINITY_BITS
    } else {
        lesser(lowest(s.drop_last()), s.last())
    }
}

/// The largest number of a sequence, negative infinity if it has none.
pub open spec fn highest(s: Seq<u32>) -> u32
    decreases s.len(),
{
    if s.len() == 0 {
        NEG_INFINITY_BITS
    } else {
        greater(highest(s.drop_last()), s.last())
    }
}

/// Whether one number is less than another, both being numbers.
fn is_less(a: u32, b: u32) -> (r: bool)
    ensures
        r == (scaled(a) < scaled(b)),
{
    let ma: u32 = a % 0x8000_0000;
    let mb: u32 = b % 0x8000_0000;
    proof {
        magnitudes_are_nonnegative();
        if ma < mb {
            scaled_magnitude_is_monotone(ma, mb);
        } else if mb < ma {
            scaled_magnitude_is_monotone(mb, ma);
        }
        if 0 < ma {
            scaled_magnitude_is_monotone(0, ma);
        }
        if 0 < mb {
            scaled_magnitude_is_monotone(0, mb);
        }
    }
    if a >= 0x8000_0000 {
        if b >= 0x8000_0000 {
            mb < ma
        } else {
            ma > 0 || mb > 0
        }
    } else {
        b < 0x8000_0000 && ma < mb
    }
}

/// The smaller of two numbers; not-a-number loses against a number.
pub fn min_bits(a: u32, b: u32) -> (r: u32)
    ensures
        r == lesser(a, b),
{
    if b % 0x8000_0000 > INFINITY_BITS {
        a
    } else if a % 0x8000_0000 > INFINITY_BITS || is_less(b, a) {
        b
    } else {
        a
    }
}

/// The larger of two numbers; not-a-number loses against a number.
pub fn max_bits(a: u32, b: u32) -> (r: u32)
    ensures
        r == greater(a, b),
{
    if b % 0x8000_0000 > INFINITY_BITS {
        a
    } else if a % 0x8000_0000 > INFINITY_BITS || is_less(a, b) {
        b
    } else {
        a
    }
}

// ---- Whole numbers ----------------------------------------------------------

/// The whole part of a number, held to the range of 32 bits. What is not a number
/// has none.
pub open spec fn whole(bits: u32) -> int {
    let n = scaled(bits) / (pow2(149) as int);
    if is_nan(bits) || is_negative(bits) {
        0
    } else if n > u32::MAX {
        u32::MAX as int
    } else {
        n
    }
}

proof fn whole_of_small(exponent: int, fraction: int)
    requires
        0 < exponent < 127,
        0 <= fraction < 0x80_0000,
    ensures
        (0x80_0000 + fraction) * pow2((exponent - 1) as nat) / (pow2(149) as int) == 0,
{
    lemma2_to64();
    lemma_pow2_adds(24, 125);
    lemma_pow2_pos(149);
    lemma_pow2_pos((exponent - 1) as nat);
    if exponent < 126 {
        lemma_pow2_strictly_increases((exponent - 1) as nat, 125);
    }
    let m = 0x80_0000 + fraction;
    let a = pow2((exponent - 1) as nat) as int;
    assert(0 <= m * a < 0x100_0000 * pow2(125)) by (nonlinear_arith)
        requires
            0 <= m < 0x100_0000,
            0 < a <= pow2(125),
    ;
    vstd::arithmetic::div_mod::lemma_basic_div(m * a, pow2(149) as int);
}

proof fn whole_of_middle(exponent: int, fraction: int)
    requires
        127 <= exponent < 150,
        0 <= fraction < 0x80_0000,
    ensures
        (0x80_0000 + fraction) * pow2((exponent - 1) as nat) / (pow2(149) as int) == (0x80_0000
            + fraction) / (pow2((150 - exponent) as nat) as int),
{
    let a = pow2((exponent - 1) as nat) as int;
    let b = pow2((150 - exponent) as nat) as int;
    let m = 0x80_0000 + fraction;
    lemma_pow2_pos((exponent - 1) as nat);
    lemma_pow2_pos((150 - exponent) as nat);
    lemma_pow2_adds((exponent - 1) as nat, (150 - exponent) as nat);
    lemma_mul_is_commutative(m, a);
    vstd::arithmetic::div_mod::lemma_div_multiples_vanish_quotient(a, m, b);
}

proof fn whole_of_large(exponent: int, fraction: int)
    requires
        150 <= exponent,
        0 <= fraction < 0x80_0000,
    ensures
        (0x80_0000 + fraction) * pow2((exponent - 1) as nat) / (pow2(149) as int) == (0x80_0000
            + fraction) * pow2((exponent - 150) as nat),
{
    let a = pow2(149) as int;
    let b = pow2((exponent - 150) as nat) as int;
    let m = 0x80_0000 + fraction;
    lemma_pow2_pos(149);
    lemma_pow2_adds(149, (exponent - 150) as nat);
    assert(m * (a * b) == a * (m * b)) by (nonlinear_arith);
    vstd::arithmetic::div_mod::lemma_div_multiples_vanish(m * b, a);
}

/// Cuts a number to its whole part, held to the range of 32 bits.
pub fn to_u32(bits: u32) -> (r: u32)
    ensures
        r == whole(bits),
{
    if bits > INFINITY_BITS {
        // Negative, or not a number.
        return 0;
    }
    let exponent: u32 = bits / 0x80_0000;
    let m: u32 = 0x80_0000 + bits % 0x80_0000;
    let ghost e = exponent as int;
    let ghost f = bits as int % 0x80_0000;
    proof {
        lemma2_to64();
    }
    if exponent < 127 {
        proof {
            if exponent == 0 {
                lemma_pow2_pos(149);
                lemma_pow2_strictly_increases(23, 149);
                vstd::arithmetic::div_mod::lemma_basic_div(bits as int, pow2(149) as int);
            } else {
                whole_of_small(e, f);
            }
        }
        0
    } else if exponent < 150 {
        let k: u32 = 150 - exponent;
        proof {
            whole_of_middle(e, f);
            vstd::bits::lemma_u32_shr_is_div(m, k);
        }
        m >> k
    } else if exponent < 159 {
        let k: u32 = exponent - 150;
        proof {
            whole_of_large(e, f);
            if k < 8 {
                lemma_pow2_strictly_increases(k as nat, 8);
            }
            assert(m * pow2(k as nat) <= 0xFF_FFFF * 0x100) by (nonlinear_arith)
                requires
                    m <= 0xFF_FFFF,
                    pow2(k as nat) <= 0x100,
            ;
            vstd::bits::lemma_u32_shl_is_mul(m, k);
        }
        m << k
    } else {
        proof {
            whole_of_large(e, f);
            if exponent > 159 {
                lemma_pow2_strictly_increases(9, (e - 150) as nat);
            }
            assert(m * pow2((e - 150) as nat) >= 0x80_0000 * 0x200) by (nonlinear_arith)
                requires
                    m >= 0x80_0000,
                    pow2((e - 150) as nat) >= 0x200,
            ;
        }
        u32::MAX
    }
}

} // verus!
