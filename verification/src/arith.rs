//! Arithmetic on single-precision numbers.
//!
//! Numbers are held as bit patterns. A result is the exact one rounded to the nearest
//! number, to the even one of two; beyond the largest number it is infinite. Where
//! there is no result, it is [`NAN_BITS`].
use vstd::prelude::*;
use vstd::arithmetic::div_mod::*;
use vstd::arithmetic::power2::*;

use crate::rounding;
use crate::single;

verus! {

/// The absolute value of a number, in units of 2^-149.
pub open spec fn size_of(bits: u32) -> int {
    single::scaled_magnitude(single::magnitude(bits))
}

/// Whether a number is neither infinite nor not a number.
pub open spec fn is_finite(bits: u32) -> bool {
    !single::is_nan(bits) && !single::is_infinite(bits)
}

/// The size where numbers end, in units of 2^-149.
pub open spec fn limit() -> int {
    size_of(single::INFINITY_BITS)
}

/// Whether `r` is the number of the given sign and size, infinite from the limit on.
pub open spec fn is_number(r: u32, negative: bool, size: int) -> bool {
    &&& single::is_negative(r) == negative
    &&& if size >= limit() {
        single::is_infinite(r)
    } else {
        is_finite(r) && size_of(r) == size
    }
}

/// A pattern that is not a number.
pub const NAN_BITS: u32 = 0x7FC0_0000;

/// Sign and size determine a number.
pub(crate) proof fn numbers_are_unique(a: u32, b: u32, negative: bool, size: int)
    requires
        is_number(a, negative, size),
        is_number(b, negative, size),
    ensures
        a == b,
{
    let (x, y) = (single::magnitude(a), single::magnitude(b));
    if x < y {
        single::scaled_magnitude_is_monotone(x, y);
    } else if y < x {
        single::scaled_magnitude_is_monotone(y, x);
    }
}

// ---- Patterns ---------------------------------------------------------------

/// The mantissa of a sign-free pattern.
pub open spec fn mantissa(mag: u32) -> int {
    if mag < 0x80_0000 {
        mag as int
    } else {
        0x80_0000 + mag as int % 0x80_0000
    }
}

/// The power of two that a mantissa is multiplied by, in units of 2^-149.
pub open spec fn shift(mag: u32) -> int {
    if mag < 0x80_0000 {
        0
    } else {
        mag as int / 0x80_0000 - 1
    }
}

pub(crate) proof fn sizes_by_parts(mag: u32)
    ensures
        single::scaled_magnitude(mag) == mantissa(mag) * pow2(shift(mag) as nat),
        0 <= shift(mag),
        0 <= mantissa(mag) < 0x100_0000,
        mag >= 0x80_0000 ==> mantissa(mag) >= 0x80_0000,
{
    lemma2_to64();
    if mag < 0x80_0000 {
        times_one(mantissa(mag));
    }
}

pub(crate) proof fn times_one(x: int)
    ensures
        x * pow2(0) == x,
{
    lemma2_to64();
    assert(x * pow2(0) == x) by (nonlinear_arith)
        requires
            pow2(0) == 1,
    ;
}

/// Takes a sign-free pattern apart.
pub(crate) fn split(mag: u32) -> (r: (u32, u32))
    requires
        mag < 0x8000_0000,
    ensures
        r.0 == mantissa(mag),
        r.1 == shift(mag),
        r.0 < 0x100_0000,
        r.1 < 255,
        mag >= 0x80_0000 ==> r.0 >= 0x80_0000,
        mag < 0x80_0000 ==> r.1 == 0,
{
    if mag < 0x80_0000 {
        (mag, 0)
    } else {
        (0x80_0000 + mag % 0x80_0000, mag / 0x80_0000 - 1)
    }
}

proof fn pattern_value(y: int, s: int)
    requires
        0 <= y <= 0x100_0000,
        0 <= s < 509,
        s == 0 || y >= 0x80_0000,
    ensures
        single::scaled_magnitude((s * 0x80_0000 + y) as u32) == y * pow2(s as nat),
{
    lemma2_to64();
    let mag = (s * 0x80_0000 + y) as u32;
    if y == 0x100_0000 {
        assert(mag as int / 0x80_0000 == s + 2 && mag as int % 0x80_0000 == 0);
        lemma_pow2_unfold((s + 1) as nat);
        assert(0x80_0000 * (2 * pow2(s as nat)) == 0x100_0000 * pow2(s as nat));
    } else if y >= 0x80_0000 {
        assert(mag as int / 0x80_0000 == s + 1 && mag as int % 0x80_0000 == y - 0x80_0000);
    } else {
        times_one(y);
    }
}

/// Puts a sign-free pattern together from a mantissa and its shift.
fn join(y: u32, s: u32) -> (r: u32)
    requires
        y <= 0x100_0000,
        s < 509,
        s == 0 || y >= 0x80_0000,
    ensures
        if y * pow2(s as nat) >= limit() {
            r == single::INFINITY_BITS
        } else {
            r < single::INFINITY_BITS && single::scaled_magnitude(r) == y * pow2(s as nat)
        },
{
    let pattern: u32 = s * 0x80_0000 + y;
    proof {
        pattern_value(y as int, s as int);
        if pattern < single::INFINITY_BITS {
            single::scaled_magnitude_is_monotone(pattern, single::INFINITY_BITS);
        } else if pattern > single::INFINITY_BITS {
            single::scaled_magnitude_is_monotone(single::INFINITY_BITS, pattern);
        }
    }
    if pattern >= single::INFINITY_BITS {
        single::INFINITY_BITS
    } else {
        pattern
    }
}

/// Rounds `x * 2^s` and makes a sign-free pattern of it.
pub(crate) fn encode(x: u128, s: u32) -> (r: u32)
    requires
        x < 0x10_0000_0000_0000_0000_0000_0000,
        s <= 400,
    ensures
        ({
            let v = rounding::to_24_bits(x * pow2(s as nat));
            if v >= limit() {
                r == single::INFINITY_BITS
            } else {
                r < single::INFINITY_BITS && single::scaled_magnitude(r) == v
            }
        }),
{
    let n: u32 = rounding::count_bits(x);
    proof {
        lemma2_to64();
        lemma2_to64_rest();
        lemma_pow2_adds(60, 40);
        rounding::bit_lengths_bound(x as int);
        rounding::bit_length_is_bounded(x as int, 100);
        rounding::rounding_of_shifted(x as int, s as nat);
    }
    if n > 24 {
        let d: u128 = rounding::power_of_two(n - 24);
        let y: u128 = rounding::round_quotient(x, d);
        proof {
            lemma_pow2_adds((n - 24) as nat, 23);
            lemma_pow2_adds((n - 24) as nat, 24);
            let q = x as int / d as int;
            assert(0x80_0000 <= q && q < 0x100_0000) by (nonlinear_arith)
                requires
                    q == x as int / d as int,
                    d * 0x80_0000 <= x < d * 0x100_0000,
                    d > 0,
            ;
            lemma_pow2_adds((n - 24) as nat, s as nat);
            let p = pow2(s as nat) as int;
            assert(y * d * p == y * (d * p)) by (nonlinear_arith);
        }
        return join(y as u32, s + (n - 24));
    }
    // Fewer digits: as many zeros are added as there are digits missing.
    let j: u32 = if 24 - n < s {
        24 - n
    } else {
        s
    };
    let d: u128 = rounding::power_of_two(j);
    proof {
        lemma_pow2_adds(n as nat, (24 - n) as nat);
        if j < 24 - n {
            lemma_pow2_strictly_increases(j as nat, (24 - n) as nat);
        }
        let top = pow2(n as nat) as int;
        lemma_pow2_pos(n as nat);
        assert(0 <= x * d <= top * d) by (nonlinear_arith)
            requires
                0 <= x < top,
                d > 0,
        ;
        assert(top * d <= 0x100_0000) by (nonlinear_arith)
            requires
                top > 0,
                0 < d <= pow2((24 - n) as nat),
                top * pow2((24 - n) as nat) == 0x100_0000,
        ;
        lemma_pow2_adds(j as nat, (s - j) as nat);
        let p = pow2((s - j) as nat) as int;
        assert(x * (d * p) == x * d * p) by (nonlinear_arith);
        if x == 0 {
            assert(x * d * p == 0) by (nonlinear_arith)
                requires
                    x == 0,
            ;
        } else if j < s {
            lemma_pow2_adds((n - 1) as nat, (24 - n) as nat);
            let low = pow2((n - 1) as nat) as int;
            assert(x * d >= low * d) by (nonlinear_arith)
                requires
                    x >= low,
                    d > 0,
            ;
        }
    }
    if x == 0 {
        return join(0, 0);
    }
    join((x * d) as u32, s - j)
}

/// A sign-free pattern with a sign.
pub(crate) fn with_sign(negative: bool, mag: u32) -> (r: u32)
    requires
        mag <= single::INFINITY_BITS,
    ensures
        single::is_negative(r) == negative,
        single::magnitude(r) == mag,
{
    if negative {
        mag + 0x8000_0000
    } else {
        mag
    }
}

// ---- Sums -------------------------------------------------------------------

/// Whether `r` is the sum of two numbers. Infinities of opposite sign have none. A sum
/// of zero is negative only if both numbers are.
pub open spec fn is_sum(a: u32, b: u32, r: u32) -> bool {
    if single::is_nan(a) || single::is_nan(b) || (single::is_infinite(a) && single::is_infinite(b)
        && a != b) {
        r == NAN_BITS
    } else if single::is_infinite(a) {
        r == a
    } else if single::is_infinite(b) {
        r == b
    } else {
        let s = single::scaled(a) + single::scaled(b);
        if s == 0 {
            is_number(r, single::is_negative(a) && single::is_negative(b), 0)
        } else {
            is_number(
                r,
                s < 0,
                rounding::to_24_bits(
                    if s < 0 {
                        -s
                    } else {
                        s
                    },
                ),
            )
        }
    }
}

/// The sum of two numbers.
pub open spec fn sum(a: u32, b: u32) -> u32 {
    choose|r: u32| is_sum(a, b, r)
}

pub(crate) proof fn sums_are_unique(a: u32, b: u32, r: u32)
    requires
        is_sum(a, b, r),
    ensures
        r == sum(a, b),
{
    let t = sum(a, b);
    assert(is_sum(a, b, t));
    if is_finite(a) && is_finite(b) {
        let s = single::scaled(a) + single::scaled(b);
        if s == 0 {
            numbers_are_unique(r, t, single::is_negative(a) && single::is_negative(b), 0);
        } else {
            numbers_are_unique(
                r,
                t,
                s < 0,
                rounding::to_24_bits(
                    if s < 0 {
                        -s
                    } else {
                        s
                    },
                ),
            );
        }
    }
}

/// A number that is far larger than another one stays as it is when the other one is
/// added or subtracted.
proof fn large_numbers_stay(m: int, d: nat, x: int)
    requires
        0x80_0000 <= m < 0x100_0000,
        30 <= d,
        m * pow2(d) - 0x100_0000 < x < m * pow2(d) + 0x100_0000,
    ensures
        rounding::to_24_bits(x) == m * pow2(d),
{
    lemma2_to64();
    lemma_pow2_adds(24, (d - 24) as nat);
    lemma_pow2_adds(26, (d - 26) as nat);
    lemma_pow2_pos((d - 26) as nat);
    let p = pow2(d) as int;
    assert(p >= 0x400_0000) by (nonlinear_arith)
        requires
            p == 0x400_0000 * pow2((d - 26) as nat),
            pow2((d - 26) as nat) > 0,
    ;
    lemma_pow2_adds(23, d);
    lemma_pow2_adds(24, d);
    lemma_pow2_unfold(d);
    let half = pow2((d - 1) as nat) as int;
    assert(m * p <= 0xFF_FFFF * p) by (nonlinear_arith)
        requires
            m <= 0xFF_FFFF,
            p > 0,
    ;
    if x >= 0x80_0000 * p {
        length_between(x, 23 + d);
        // The nearest multiple of `p` is `m`.
        if x >= m * p {
            lemma_fundamental_div_mod_converse(x, p, m, x - m * p);
        } else {
            assert(m * p - p == (m - 1) * p) by (nonlinear_arith);
            lemma_fundamental_div_mod_converse(x, p, m - 1, x - (m - 1) * p);
        }
    } else {
        assert(m == 0x80_0000) by (nonlinear_arith)
            requires
                m * p - 0x100_0000 < x < 0x80_0000 * p,
                m >= 0x80_0000,
                p >= 0x400_0000,
        ;
        lemma_pow2_adds(23, (d - 1) as nat);
        assert(0x80_0000 * p == 0x100_0000 * half);
        length_between(x, (23 + (d - 1)) as nat);
        lemma_fundamental_div_mod_converse(x, half, 0xFF_FFFF, x - 0xFF_FFFF * half);
    }
}

/// A number between two powers of two has as many digits as the exponent of the upper
/// one.
proof fn length_between(x: int, n: nat)
    requires
        pow2(n) <= x < pow2(n + 1),
    ensures
        rounding::bit_length(x) == n + 1,
{
    lemma_pow2_pos(n);
    rounding::bit_lengths_bound(x);
    let len = rounding::bit_length(x);
    if len < n + 1 {
        if len < n {
            lemma_pow2_strictly_increases(len as nat, n);
        }
    } else if len > n + 1 {
        if len - 1 > n + 1 {
            lemma_pow2_strictly_increases(n + 1, (len - 1) as nat);
        }
    }
}

/// Adds two numbers of which the first is not smaller, or takes the second from the
/// first.
fn combine(big: u32, small: u32, subtract: bool) -> (r: u32)
    requires
        small <= big < single::INFINITY_BITS,
    ensures
        ({
            let a = single::scaled_magnitude(big);
            let b = single::scaled_magnitude(small);
            let v = rounding::to_24_bits(
                if subtract {
                    a - b
                } else {
                    a + b
                },
            );
            if v >= limit() {
                r == single::INFINITY_BITS
            } else {
                r < single::INFINITY_BITS && single::scaled_magnitude(r) == v
            }
        }),
{
    let (m, s) = split(big);
    let (n, t) = split(small);
    let ghost p = pow2(t as nat) as int;
    proof {
        sizes_by_parts(big);
        sizes_by_parts(small);
        lemma2_to64();
        assert(t <= s);
        lemma_pow2_adds(t as nat, (s - t) as nat);
        lemma_pow2_pos(t as nat);
        lemma_pow2_pos((s - t) as nat);
        let q = pow2((s - t) as nat) as int;
        assert(m * (p * q) == m * q * p && (m * q + n) * p == m * q * p + n * p && (m * q - n) * p
            == m * q * p - n * p) by (nonlinear_arith);
        if small < big {
            single::scaled_magnitude_is_monotone(small, big);
        }
        assert(n * p <= m * q * p);
        assert(n <= m * q) by (nonlinear_arith)
            requires
                n * p <= m * q * p,
                p > 0,
        ;
    }
    if s - t > 60 {
        proof {
            let q = pow2((s - t) as nat) as int;
            let x = if subtract {
                m * q - n
            } else {
                m * q + n
            };
            large_numbers_stay(m as int, (s - t) as nat, x);
            rounding::rounding_of_shifted(x, t as nat);
            single::scaled_magnitude_is_monotone(big, single::INFINITY_BITS);
        }
        return big;
    }
    let q: u128 = rounding::power_of_two(s - t);
    proof {
        if s - t < 60 {
            lemma_pow2_strictly_increases((s - t) as nat, 60);
        }
        lemma2_to64_rest();
        assert(0 <= m * q < 0x100_0000 * 0x1000_0000_0000_0000) by (nonlinear_arith)
            requires
                0 <= m < 0x100_0000,
                0 < q <= 0x1000_0000_0000_0000,
        ;
    }
    let x: u128 = if subtract {
        m as u128 * q - n as u128
    } else {
        m as u128 * q + n as u128
    };
    encode(x, t)
}

fn find_sum(a: u32, b: u32) -> (r: u32)
    ensures
        is_sum(a, b, r),
{
    let (na, nb) = (a >= 0x8000_0000, b >= 0x8000_0000);
    let (ma, mb): (u32, u32) = (a % 0x8000_0000, b % 0x8000_0000);
    if ma > single::INFINITY_BITS || mb > single::INFINITY_BITS {
        return NAN_BITS;
    }
    if ma == single::INFINITY_BITS {
        return if mb == single::INFINITY_BITS && na != nb {
            NAN_BITS
        } else {
            a
        };
    }
    if mb == single::INFINITY_BITS {
        return b;
    }
    proof {
        single::magnitudes_are_nonnegative();
        if ma < mb {
            single::scaled_magnitude_is_monotone(ma, mb);
        } else if mb < ma {
            single::scaled_magnitude_is_monotone(mb, ma);
        }
        single::scaled_magnitude_is_monotone(0, single::INFINITY_BITS);
    }
    if na == nb {
        let r: u32 = if ma < mb {
            combine(mb, ma, false)
        } else {
            combine(ma, mb, false)
        };
        proof {
            // A sum of zero is that of two zeros.
            if single::scaled(a) + single::scaled(b) == 0 {
                assert(rounding::to_24_bits(0) == 0);
            }
        }
        return with_sign(na, r);
    }
    if ma == mb {
        return 0;
    }
    if ma < mb {
        with_sign(nb, combine(mb, ma, true))
    } else {
        with_sign(na, combine(ma, mb, true))
    }
}

/// Adds two numbers.
pub fn add_singles(a: u32, b: u32) -> (r: u32)
    ensures
        is_sum(a, b, r),
        r == sum(a, b),
{
    let r: u32 = find_sum(a, b);
    proof {
        sums_are_unique(a, b, r);
    }
    r
}

/// Takes the second number from the first.
pub fn subtract_singles(a: u32, b: u32) -> (r: u32)
    ensures
        r == sum(a, single::negated(b)),
{
    add_singles(a, single::negate(b))
}

// ---- Products ---------------------------------------------------------------

/// The product of two sizes, rounded. It has at most 24 binary digits and none below the
/// unit.
pub open spec fn size_product(a: int, b: int) -> int {
    let p = a * b;
    let digits = rounding::bit_length(p) - 24;
    let g = if digits < 149 {
        149
    } else {
        digits
    };
    rounding::nearest_even(p, pow2(g as nat) as int) * pow2((g - 149) as nat)
}

/// Whether `r` is the product of two numbers. Infinity and zero have none.
pub open spec fn is_product(a: u32, b: u32, r: u32) -> bool {
    if single::is_nan(a) || single::is_nan(b) || (single::is_infinite(a) && size_of(b) == 0) || (
    single::is_infinite(b) && size_of(a) == 0) {
        r == NAN_BITS
    } else {
        is_number(
            r,
            single::is_negative(a) != single::is_negative(b),
            if single::is_infinite(a) || single::is_infinite(b) {
                limit()
            } else {
                size_product(size_of(a), size_of(b))
            },
        )
    }
}

/// A product of mantissas that is a whole number of units.
pub(crate) proof fn whole_product(m: int, t: int)
    requires
        0 <= m,
        149 <= t,
    ensures
        ({
            let p = m * pow2(t as nat);
            let digits = rounding::bit_length(p) - 24;
            let g = if digits < 149 {
                149
            } else {
                digits
            };
            rounding::nearest_even(p, pow2(g as nat) as int) * pow2((g - 149) as nat)
                == rounding::to_24_bits(m * pow2((t - 149) as nat))
        }),
{
    let p = m * pow2(t as nat);
    let v = m * pow2((t - 149) as nat);
    let c = pow2(149) as int;
    lemma_pow2_pos(149);
    lemma_pow2_pos((t - 149) as nat);
    lemma_pow2_adds(149, (t - 149) as nat);
    assert(p == c * v) by (nonlinear_arith)
        requires
            p == m * (c * pow2((t - 149) as nat)),
            v == m * pow2((t - 149) as nat),
    ;
    assert(v >= 0) by (nonlinear_arith)
        requires
            v == m * pow2((t - 149) as nat),
            m >= 0,
            pow2((t - 149) as nat) > 0,
    ;
    if m == 0 {
        assert(v == 0) by (nonlinear_arith)
            requires
                v == m * pow2((t - 149) as nat),
                m == 0,
        ;
        lemma_basic_div(0, c);
        assert(rounding::nearest_even(0, c) == 0);
    } else {
        assert(v > 0) by (nonlinear_arith)
            requires
                v == m * pow2((t - 149) as nat),
                m > 0,
                pow2((t - 149) as nat) > 0,
        ;
        assert(v * c == c * v) by (nonlinear_arith);
        rounding::bit_length_of_shifted(v, 149);
        let len = rounding::bit_length(v);
        if len <= 24 {
            lemma_div_multiples_vanish(v, c);
            lemma_mod_multiples_basic(v, c);
            lemma2_to64();
            times_one(v);
        } else {
            let e = (len - 24) as nat;
            lemma_pow2_adds(149, e);
            lemma_pow2_pos(e);
            rounding::nearest_of_multiples(v, pow2(e) as int, c);
        }
    }
}

/// A product of mantissas with digits below the unit: where it is cut, and what the
/// quotient is.
proof fn cut_product(m: int, t: int)
    requires
        0 < m < 0x1_0000_0000_0000,
        0 <= t < 149,
    ensures
        ({
            let p = m * pow2(t as nat);
            let len = rounding::bit_length(m);
            let digits = rounding::bit_length(p) - 24;
            let g = if digits < 149 {
                149
            } else {
                digits
            };
            &&& g == if len + t < 173 {
                149
            } else {
                len + t - 24
            }
            &&& t < g
            &&& rounding::nearest_even(p, pow2(g as nat) as int) == rounding::nearest_even(
                m,
                pow2((g - t) as nat) as int,
            )
            &&& len <= 48
        }),
{
    lemma2_to64();
    lemma2_to64_rest();
    rounding::bit_length_is_bounded(m, 48);
    rounding::bit_length_of_shifted(m, t as nat);
    let len = rounding::bit_length(m);
    let g: int = if len + t < 173 {
        149
    } else {
        len + t - 24
    };
    let c = pow2(t as nat) as int;
    lemma_pow2_pos(t as nat);
    lemma_pow2_pos((g - t) as nat);
    lemma_pow2_adds(t as nat, (g - t) as nat);
    assert(m * c == c * m) by (nonlinear_arith);
    rounding::nearest_of_multiples(m, pow2((g - t) as nat) as int, c);
}

/// Multiplies two sizes.
fn multiply(a: u32, b: u32) -> (r: u32)
    requires
        a < single::INFINITY_BITS,
        b < single::INFINITY_BITS,
    ensures
        ({
            let v = size_product(single::scaled_magnitude(a), single::scaled_magnitude(b));
            if v >= limit() {
                r == single::INFINITY_BITS
            } else {
                r < single::INFINITY_BITS && single::scaled_magnitude(r) == v
            }
        }),
{
    let (m, s) = split(a);
    let (n, t) = split(b);
    assert(0 <= m * n < 0x1_0000_0000_0000) by (nonlinear_arith)
        requires
            0 <= m < 0x100_0000,
            0 <= n < 0x100_0000,
    ;
    let x: u128 = m as u128 * n as u128;
    let k: u32 = s + t;
    proof {
        sizes_by_parts(a);
        sizes_by_parts(b);
        lemma_pow2_adds(s as nat, t as nat);
        let (p, q) = (pow2(s as nat) as int, pow2(t as nat) as int);
        assert(m * p * (n * q) == x * (p * q)) by (nonlinear_arith)
            requires
                x == m * n,
        ;
    }
    if k >= 149 {
        proof {
            whole_product(x as int, k as int);
        }
        return encode(x, k - 149);
    }
    if x == 0 {
        proof {
            lemma_pow2_pos(149);
            lemma_basic_div(0, pow2(149) as int);
            assert(x * pow2(k as nat) == 0) by (nonlinear_arith)
                requires
                    x == 0,
            ;
            assert(rounding::bit_length(0) == 0);
            assert(rounding::nearest_even(0, pow2(149) as int) == 0);
            times_one(0);
            single::scaled_magnitude_is_monotone(0, single::INFINITY_BITS);
        }
        return 0;
    }
    let len: u32 = rounding::count_bits(x);
    proof {
        cut_product(x as int, k as int);
        rounding::bit_lengths_bound(x as int);
    }
    let g: u32 = if len + k < 173 {
        149
    } else {
        len + k - 24
    };
    let h: u32 = g - k;
    if h > 100 {
        proof {
            // Less than half a unit.
            lemma2_to64();
            lemma2_to64_rest();
            lemma_pow2_strictly_increases(48, (h - 1) as nat);
            lemma_pow2_unfold(h as nat);
            lemma_basic_div(x as int, pow2(h as nat) as int);
            lemma_small_mod(x as nat, pow2(h as nat));
            times_one(0);
            single::scaled_magnitude_is_monotone(0, single::INFINITY_BITS);
        }
        return 0;
    }
    let d: u128 = rounding::power_of_two(h);
    let y: u128 = rounding::round_quotient(x, d);
    proof {
        lemma2_to64();
        let q = x as int / d as int;
        lemma_pow2_pos(h as nat);
        if len + k < 173 {
            // Below 24 digits after the cut.
            lemma_pow2_adds(24, h as nat);
            if len < 24 + h {
                lemma_pow2_strictly_increases(len as nat, (24 + h) as nat);
            }
            assert(q < 0x100_0000) by (nonlinear_arith)
                requires
                    q == x as int / d as int,
                    0 <= x < 0x100_0000 * d,
                    d > 0,
            ;
        } else {
            lemma_pow2_adds(24, h as nat);
            lemma_pow2_adds(23, h as nat);
            assert(0x80_0000 <= q && q < 0x100_0000) by (nonlinear_arith)
                requires
                    q == x as int / d as int,
                    0x80_0000 * d <= x < 0x100_0000 * d,
                    d > 0,
            ;
        }
        assert(q >= 0) by (nonlinear_arith)
            requires
                q == x as int / d as int,
                d > 0,
                x >= 0,
        ;
    }
    join(y as u32, g - 149)
}

fn find_product(a: u32, b: u32) -> (r: u32)
    ensures
        is_product(a, b, r),
{
    let negative = (a >= 0x8000_0000) != (b >= 0x8000_0000);
    let (ma, mb): (u32, u32) = (a % 0x8000_0000, b % 0x8000_0000);
    if ma > single::INFINITY_BITS || mb > single::INFINITY_BITS {
        return NAN_BITS;
    }
    proof {
        if ma > 0 {
            single::scaled_magnitude_is_monotone(0, ma);
        }
        if mb > 0 {
            single::scaled_magnitude_is_monotone(0, mb);
        }
    }
    if ma == single::INFINITY_BITS || mb == single::INFINITY_BITS {
        return if ma == 0 || mb == 0 {
            NAN_BITS
        } else {
            with_sign(negative, single::INFINITY_BITS)
        };
    }
    with_sign(negative, multiply(ma, mb))
}

/// The product of two numbers.
pub open spec fn product(a: u32, b: u32) -> u32 {
    choose|r: u32| is_product(a, b, r)
}

/// Multiplies two numbers.
pub fn multiply_singles(a: u32, b: u32) -> (r: u32)
    ensures
        is_product(a, b, r),
        r == product(a, b),
{
    let r: u32 = find_product(a, b);
    proof {
        let t = product(a, b);
        assert(is_product(a, b, t));
        if r != NAN_BITS || t != NAN_BITS {
            numbers_are_unique(
                r,
                t,
                single::is_negative(a) != single::is_negative(b),
                if single::is_infinite(a) || single::is_infinite(b) {
                    limit()
                } else {
                    size_product(size_of(a), size_of(b))
                },
            );
        }
    }
    r
}

// ---- Quotients --------------------------------------------------------------

/// The quotient of two sizes, rounded. It has at most 24 binary digits and none below
/// the unit.
pub open spec fn size_quotient(a: int, b: int) -> int {
    let n = a * pow2(149);
    let digits = rounding::bit_length(n / b) - 24;
    let g = if digits < 0 {
        0
    } else {
        digits
    };
    rounding::nearest_even(n, b * pow2(g as nat)) * pow2(g as nat)
}

/// Whether `r` is the quotient of two numbers. Two zeros have none, nor have two
/// infinities.
pub open spec fn is_quotient(a: u32, b: u32, r: u32) -> bool {
    if single::is_nan(a) || single::is_nan(b) || (single::is_infinite(a) && single::is_infinite(b))
        || (size_of(a) == 0 && size_of(b) == 0) {
        r == NAN_BITS
    } else {
        is_number(
            r,
            single::is_negative(a) != single::is_negative(b),
            if single::is_infinite(a) || size_of(b) == 0 {
                limit()
            } else if single::is_infinite(b) {
                0
            } else {
                size_quotient(size_of(a), size_of(b))
            },
        )
    }
}

/// The quotient of two numbers.
pub open spec fn quotient(a: u32, b: u32) -> u32 {
    choose|r: u32| is_quotient(a, b, r)
}

/// A floor reaches a number when its quotient does.
proof fn floor_reaches(n: int, b: int, c: int)
    requires
        0 <= n,
        0 < b,
    ensures
        n / b >= c <==> n >= c * b,
{
    assert(n / b >= c <==> n >= c * b) by (nonlinear_arith)
        requires
            0 <= n,
            0 < b,
    ;
}

/// Digits of a quotient of shifted mantissas, from those of one with a fixed shift.
proof fn quotient_digits(m: int, n: int, k: int, len: int)
    requires
        0 < m,
        0 < n,
        0 <= k,
        len == rounding::bit_length(m * pow2(50) / n),
        0 < len,
    ensures
        rounding::bit_length(m * pow2(k as nat) / n) == if len + k - 50 < 0 {
            0
        } else {
            len + k - 50
        },
{
    let a = m * pow2(50);
    let b = m * pow2(k as nat);
    lemma_pow2_pos(50);
    lemma_pow2_pos(k as nat);
    assert(a > 0 && b > 0) by (nonlinear_arith)
        requires
            a == m * pow2(50),
            b == m * pow2(k as nat),
            m > 0,
            pow2(50) > 0,
            pow2(k as nat) > 0,
    ;
    let v = a / n;
    let w = b / n;
    rounding::bit_lengths_bound(v);
    floor_reaches(a, n, pow2((len - 1) as nat) as int);
    floor_reaches(a, n, pow2(len as nat) as int);
    let l = len + k - 50;
    let (lo, hi) = (pow2((len - 1) as nat) as int, pow2(len as nat) as int);
    assert(lo * n <= a < hi * n);
    if k >= 50 {
        let c = pow2((k - 50) as nat) as int;
        lemma_pow2_pos((k - 50) as nat);
        lemma_pow2_adds(50, (k - 50) as nat);
        lemma_pow2_adds((len - 1) as nat, (k - 50) as nat);
        lemma_pow2_adds(len as nat, (k - 50) as nat);
        assert(b == a * c) by (nonlinear_arith)
            requires
                a == m * pow2(50),
                b == m * (pow2(50) * c),
        ;
        assert(lo * c * n <= b < hi * c * n) by (nonlinear_arith)
            requires
                lo * n <= a < hi * n,
                b == a * c,
                c > 0,
        ;
        floor_reaches(b, n, lo * c);
        floor_reaches(b, n, hi * c);
        length_between(w, (l - 1) as nat);
    } else {
        let c = pow2((50 - k) as nat) as int;
        lemma_pow2_pos((50 - k) as nat);
        lemma_pow2_adds(k as nat, (50 - k) as nat);
        assert(a == b * c) by (nonlinear_arith)
            requires
                a == m * (pow2(k as nat) * c),
                b == m * pow2(k as nat),
        ;
        if l <= 0 {
            if len < 50 - k {
                lemma_pow2_strictly_increases(len as nat, (50 - k) as nat);
            }
            assert(b < n) by (nonlinear_arith)
                requires
                    b * c < hi * n,
                    hi <= c,
                    c > 0,
                    n > 0,
            ;
            lemma_basic_div(b, n);
        } else {
            lemma_pow2_adds((l - 1) as nat, (50 - k) as nat);
            lemma_pow2_adds(l as nat, (50 - k) as nat);
            let (p, q) = (pow2((l - 1) as nat) as int, pow2(l as nat) as int);
            assert(p * n <= b < q * n) by (nonlinear_arith)
                requires
                    p * c * n <= b * c < q * c * n,
                    c > 0,
            ;
            floor_reaches(b, n, p);
            floor_reaches(b, n, q);
            length_between(w, (l - 1) as nat);
        }
    }
}

/// The quotient of two sizes by their mantissas: `k` is the shift between them.
proof fn quotient_by_parts(m: int, s: int, n: int, t: int, len: int)
    requires
        0 < m < 0x100_0000,
        0 < n < 0x100_0000,
        0 <= s,
        0 <= t,
        len == rounding::bit_length(m * pow2(50) / n),
    ensures
        26 < len <= 74,
        ({
            let k = 149 + s - t;
            let g = if len + k - 74 < 0 {
                0
            } else {
                len + k - 74
            };
            let h = k - g;
            size_quotient(m * pow2(s as nat), n * pow2(t as nat)) == pow2(g as nat) * if h >= 0 {
                rounding::nearest_even(m * pow2(h as nat), n)
            } else {
                rounding::nearest_even(m, n * pow2((-h) as nat))
            }
        }),
{
    lemma2_to64();
    lemma2_to64_rest();
    let a = m * pow2(50);
    lemma_pow2_adds(24, 26);
    lemma_pow2_adds(24, 50);
    assert(a >= 0x400_0000 * n && a < pow2(74) * n) by (nonlinear_arith)
        requires
            a == m * pow2(50),
            pow2(50) == 0x400_0000 * 0x100_0000,
            pow2(74) == 0x100_0000 * pow2(50),
            0 < m < 0x100_0000,
            0 < n < 0x100_0000,
    ;
    floor_reaches(a, n, 0x400_0000);
    floor_reaches(a, n, pow2(74) as int);
    rounding::bit_length_is_bounded(a / n, 74);
    rounding::bit_lengths_bound(a / n);
    if len <= 26 {
        if len < 26 {
            lemma_pow2_strictly_increases(len as nat, 26);
        }
    }
    let k = 149 + s - t;
    let x = m * pow2(s as nat) * pow2(149);
    let b = n * pow2(t as nat);
    lemma_pow2_adds(s as nat, 149);
    lemma_pow2_pos(t as nat);
    lemma_pow2_pos((s + 149) as nat);
    let u = pow2((s + 149) as nat) as int;
    let c = pow2(t as nat) as int;
    assert(x == m * u) by (nonlinear_arith)
        requires
            x == m * pow2(s as nat) * pow2(149),
            u == pow2(s as nat) * pow2(149),
    ;
    let g: int = if len + k - 74 < 0 {
        0
    } else {
        len + k - 74
    };
    let d = pow2(g as nat) as int;
    lemma_pow2_pos(g as nat);
    let h = k - g;
    if k >= 0 {
        lemma_pow2_adds(t as nat, k as nat);
        let f = pow2(k as nat) as int;
        lemma_pow2_pos(k as nat);
        assert(m * f > 0) by (nonlinear_arith)
            requires
                m > 0,
                f > 0,
        ;
        assert(x == c * (m * f) && b == c * n && b * d == c * (n * d) && n * d > 0)
            by (nonlinear_arith)
            requires
                x == m * u,
                u == c * f,
                b == n * c,
                n > 0,
                d > 0,
        ;
        rounding::nearest_of_multiples(m * f, n, c);
        rounding::nearest_of_multiples(m * f, n * d, c);
        quotient_digits(m, n, k, len);
        if h >= 0 {
            lemma_pow2_adds(g as nat, h as nat);
            let e = pow2(h as nat) as int;
            lemma_pow2_pos(h as nat);
            assert(m * f == d * (m * e) && n * d == d * n && m * e > 0) by (nonlinear_arith)
                requires
                    f == d * e,
                    m > 0,
                    e > 0,
            ;
            rounding::nearest_of_multiples(m * e, n, d);
        }
        assert(h >= 0);
    } else {
        // The second number is so much larger that the quotient has no 24 digits.
        lemma_pow2_adds((s + 149) as nat, (-k) as nat);
        let f = pow2((-k) as nat) as int;
        lemma_pow2_pos((-k) as nat);
        assert(x == u * m && b == u * (n * f) && n * f > 0) by (nonlinear_arith)
            requires
                x == m * u,
                b == n * c,
                c == u * f,
                n > 0,
                f > 0,
        ;
        rounding::nearest_of_multiples(m, n * f, u);
        floor_reaches(m, n * f, 0x100_0000);
        assert(m < 0x100_0000 * (n * f)) by (nonlinear_arith)
            requires
                m < 0x100_0000,
                n * f >= 1,
        ;
        vstd::arithmetic::div_mod::lemma_div_pos_is_pos(m, n * f);
        rounding::bit_length_is_bounded(m / (n * f), 24);
        times_one(b);
        assert(b * pow2(0) == b);
    }
    let y = rounding::nearest_even(x, b * d);
    assert(y * d == d * y) by (nonlinear_arith);
}

/// Divides two sizes.
fn divide(a: u32, b: u32) -> (r: u32)
    requires
        a < single::INFINITY_BITS,
        0 < b < single::INFINITY_BITS,
    ensures
        ({
            let v = size_quotient(single::scaled_magnitude(a), single::scaled_magnitude(b));
            if v >= limit() {
                r == single::INFINITY_BITS
            } else {
                r < single::INFINITY_BITS && single::scaled_magnitude(r) == v
            }
        }),
{
    let (m, s) = split(a);
    let (n, t) = split(b);
    proof {
        sizes_by_parts(a);
        sizes_by_parts(b);
        lemma2_to64();
        lemma2_to64_rest();
        single::scaled_magnitude_is_monotone(0, single::INFINITY_BITS);
        single::scaled_magnitude_is_monotone(0, b);
    }
    if m == 0 {
        proof {
            let size = single::scaled_magnitude(b);
            assert(single::scaled_magnitude(a) * pow2(149) == 0) by (nonlinear_arith)
                requires
                    single::scaled_magnitude(a) == 0 * pow2(s as nat),
            ;
            lemma_basic_div(0, size);
            times_one(size);
            assert(rounding::bit_length(0) == 0);
            assert(rounding::nearest_even(0, size) == 0);
            times_one(0);
        }
        return 0;
    }
    let x: u128 = m as u128 * 0x4_0000_0000_0000;
    let len: u32 = rounding::count_bits(x / n as u128);
    proof {
        quotient_by_parts(m as int, s as int, n as int, t as int, len as int);
    }
    // The shift between the numbers, and how much of it is left after the cut.
    let k: i64 = 149 + s as i64 - t as i64;
    let g: i64 = if len as i64 + k - 74 < 0 {
        0
    } else {
        len as i64 + k - 74
    };
    let h: i64 = k - g;
    if h >= 0 {
        let e: u128 = rounding::power_of_two(h as u32);
        proof {
            if h < 48 {
                lemma_pow2_strictly_increases(h as nat, 48);
            }
            assert(0 < m * e <= 0x100_0000 * 0x1_0000_0000_0000) by (nonlinear_arith)
                requires
                    0 < m < 0x100_0000,
                    0 < e <= 0x1_0000_0000_0000,
            ;
        }
        let y: u128 = rounding::round_quotient(m as u128 * e, n as u128);
        proof {
            quotient_is_cut(m as int, n as int, len as int, h as int, g as int);
            let (p, q) = (y as int, pow2(g as nat) as int);
            assert(p * q == q * p) by (nonlinear_arith);
        }
        return join(y as u32, g as u32);
    }
    proof {
        assert(g == 0);
        lemma_pow2_pos((-h) as nat);
        let f = pow2((-h) as nat) as int;
        let y = rounding::nearest_even(m as int, n * f);
        times_one(y);
        assert(pow2(0) * y == y * pow2(0)) by (nonlinear_arith);
        assert(n * f >= f) by (nonlinear_arith)
            requires
                n >= 1,
                f > 0,
        ;
    }
    if h < -60 {
        proof {
            lemma_pow2_strictly_increases(60, (-h) as nat);
            let f = pow2((-h) as nat) as int;
            lemma_basic_div(m as int, n * f);
            lemma_small_mod(m as nat, (n * f) as nat);
            times_one(0);
        }
        return 0;
    }
    let f: u128 = rounding::power_of_two((-h) as u32);
    proof {
        if -h < 60 {
            lemma_pow2_strictly_increases((-h) as nat, 60);
        }
        assert(0 < n * f <= 0x100_0000 * 0x1000_0000_0000_0000) by (nonlinear_arith)
            requires
                0 < n < 0x100_0000,
                0 < f <= 0x1000_0000_0000_0000,
        ;
    }
    let y: u128 = rounding::round_quotient(m as u128, n as u128 * f);
    proof {
        floor_reaches(m as int, n * f, 0x100_0000);
        assert(m < 0x100_0000 * (n * f)) by (nonlinear_arith)
            requires
                m < 0x100_0000,
                n * f >= 1,
        ;
        times_one(y as int);
    }
    join(y as u32, 0)
}

/// What is left of a quotient after the cut has at most 24 digits, and exactly 24 if
/// something was cut.
proof fn quotient_is_cut(m: int, n: int, len: int, h: int, g: int)
    requires
        0 < m,
        0 < n,
        0 < len <= 74,
        len == rounding::bit_length(m * pow2(50) / n),
        0 <= h <= 74 - len,
        0 <= g,
        g > 0 ==> h == 74 - len,
    ensures
        rounding::nearest_even(m * pow2(h as nat), n) <= 0x100_0000,
        g > 0 ==> rounding::nearest_even(m * pow2(h as nat), n) >= 0x80_0000,
{
    lemma2_to64();
    quotient_digits(m, n, h, len);
    let v = m * pow2(h as nat) / n;
    lemma_pow2_pos(h as nat);
    assert(m * pow2(h as nat) > 0) by (nonlinear_arith)
        requires
            m > 0,
            pow2(h as nat) > 0,
    ;
    vstd::arithmetic::div_mod::lemma_div_pos_is_pos(m * pow2(h as nat), n);
    rounding::bit_lengths_bound(v);
    let l = rounding::bit_length(v);
    if l < 24 {
        lemma_pow2_strictly_increases(l as nat, 24);
    }
}

fn find_quotient(a: u32, b: u32) -> (r: u32)
    ensures
        is_quotient(a, b, r),
{
    let negative = (a >= 0x8000_0000) != (b >= 0x8000_0000);
    let (ma, mb): (u32, u32) = (a % 0x8000_0000, b % 0x8000_0000);
    if ma > single::INFINITY_BITS || mb > single::INFINITY_BITS {
        return NAN_BITS;
    }
    proof {
        if ma > 0 {
            single::scaled_magnitude_is_monotone(0, ma);
        }
        if mb > 0 {
            single::scaled_magnitude_is_monotone(0, mb);
        }
        single::scaled_magnitude_is_monotone(0, single::INFINITY_BITS);
    }
    if ma == single::INFINITY_BITS {
        return if mb == single::INFINITY_BITS {
            NAN_BITS
        } else {
            with_sign(negative, single::INFINITY_BITS)
        };
    }
    if mb == 0 {
        return if ma == 0 {
            NAN_BITS
        } else {
            with_sign(negative, single::INFINITY_BITS)
        };
    }
    if mb == single::INFINITY_BITS {
        return with_sign(negative, 0);
    }
    with_sign(negative, divide(ma, mb))
}

/// Divides two numbers.
pub fn divide_singles(a: u32, b: u32) -> (r: u32)
    ensures
        is_quotient(a, b, r),
        r == quotient(a, b),
{
    let r: u32 = find_quotient(a, b);
    proof {
        let t = quotient(a, b);
        assert(is_quotient(a, b, t));
        if r != NAN_BITS || t != NAN_BITS {
            numbers_are_unique(
                r,
                t,
                single::is_negative(a) != single::is_negative(b),
                if single::is_infinite(a) || size_of(b) == 0 {
                    limit()
                } else if single::is_infinite(b) {
                    0
                } else {
                    size_quotient(size_of(a), size_of(b))
                },
            );
        }
    }
    r
}

// ---- Roots ------------------------------------------------------------------

/// Whether `m * 2^g` is the square root of `n`, rounded to 24 binary digits. No root lies
/// halfway between two numbers.
pub open spec fn is_rounded_root(n: int, m: int, g: int) -> bool {
    let unit = pow2((2 * g) as nat) as int;
    &&& 0 <= g
    &&& 0x80_0000 <= m <= 0x100_0000
    &&& 0x4000_0000_0000 * unit <= n < 0x1_0000_0000_0000 * unit
    &&& (2 * m - 1) * (2 * m - 1) * unit < 4 * n < (2 * m + 1) * (2 * m + 1) * unit
}

/// Whether `r` is the square root of a number. Negative numbers have none.
pub open spec fn is_root(a: u32, r: u32) -> bool {
    if size_of(a) == 0 && is_finite(a) {
        r == a
    } else if single::is_nan(a) || single::is_negative(a) {
        r == NAN_BITS
    } else if single::is_infinite(a) {
        r == a
    } else {
        &&& is_finite(r)
        &&& !single::is_negative(r)
        &&& exists|m: int, g: int|
            #![trigger is_rounded_root(size_of(a) * pow2(149), m, g)]
            is_rounded_root(size_of(a) * pow2(149), m, g) && size_of(r) == m * pow2(g as nat)
    }
}

/// The square root of a number.
pub open spec fn root(a: u32) -> u32 {
    choose|r: u32| is_root(a, r)
}

pub(crate) proof fn rounded_roots_are_unique(n: int, m: int, g: int, k: int, h: int)
    requires
        is_rounded_root(n, m, g),
        is_rounded_root(n, k, h),
    ensures
        m == k,
        g == h,
{
    let (u, v) = (pow2((2 * g) as nat) as int, pow2((2 * h) as nat) as int);
    lemma2_to64();
    lemma_pow2_pos((2 * g) as nat);
    lemma_pow2_pos((2 * h) as nat);
    if g < h {
        lemma_pow2_adds((2 * g) as nat, (2 * h - 2 * g) as nat);
        lemma_pow2_adds(2, (2 * h - 2 * g - 2) as nat);
        lemma_pow2_pos((2 * h - 2 * g - 2) as nat);
        let e = pow2((2 * h - 2 * g) as nat) as int;
        assert(v >= 4 * u) by (nonlinear_arith)
            requires
                v == u * e,
                e >= 4,
                u > 0,
        ;
    }
    if h < g {
        lemma_pow2_adds((2 * h) as nat, (2 * g - 2 * h) as nat);
        lemma_pow2_adds(2, (2 * g - 2 * h - 2) as nat);
        lemma_pow2_pos((2 * g - 2 * h - 2) as nat);
        let e = pow2((2 * g - 2 * h) as nat) as int;
        assert(u >= 4 * v) by (nonlinear_arith)
            requires
                u == v * e,
                e >= 4,
                v > 0,
        ;
    }
    assert(g == h);
    if m < k {
        assert((2 * m + 1) * (2 * m + 1) * u <= (2 * k - 1) * (2 * k - 1) * u) by (nonlinear_arith)
            requires
                0 <= m,
                m + 1 <= k,
                u > 0,
        ;
    }
    if k < m {
        assert((2 * k + 1) * (2 * k + 1) * u <= (2 * m - 1) * (2 * m - 1) * u) by (nonlinear_arith)
            requires
                0 <= k,
                k + 1 <= m,
                u > 0,
        ;
    }
}

/// Finds the integer nearest to the square root of a number with 47 or 48 binary digits.
fn nearest_root(x: u64) -> (r: u32)
    requires
        0x4000_0000_0000 <= x < 0x1_0000_0000_0000,
    ensures
        0x80_0000 <= r <= 0x100_0000,
        (2 * r - 1) * (2 * r - 1) < 4 * x < (2 * r + 1) * (2 * r + 1),
{
    // The largest integer whose square is at most `x` lies in this range.
    let mut low: u64 = 0x80_0000;
    let mut high: u64 = 0x100_0000;
    while low + 1 < high
        invariant
            0x80_0000 <= low < high <= 0x100_0000,
            low * low <= x < high * high,
        decreases high - low,
    {
        let mid: u64 = low + (high - low) / 2;
        assert(0 <= mid * mid <= 0x100_0000 * 0x100_0000) by (nonlinear_arith)
            requires
                0 <= mid <= 0x100_0000,
        ;
        if mid * mid <= x {
            low = mid;
        } else {
            high = mid;
        }
    }
    assert(high == low + 1);
    let (l, y) = (low, x);
    assert((l + 1) * (l + 1) == l * l + 2 * l + 1) by (nonlinear_arith);
    assert(l * l <= 0x100_0000 * 0x100_0000) by (nonlinear_arith)
        requires
            0 <= l <= 0x100_0000,
    ;
    // `x` lies above the middle if it exceeds the square of `low` by more than `low`.
    if x - low * low > low {
        assert((2 * (l + 1) - 1) * (2 * (l + 1) - 1) == 4 * (l * l + l) + 1) by (nonlinear_arith);
        assert((2 * (l + 1) + 1) * (2 * (l + 1) + 1) == 4 * ((l + 1) * (l + 1)) + 4 * l + 5)
            by (nonlinear_arith);
        (low + 1) as u32
    } else {
        assert((2 * l - 1) * (2 * l - 1) == 4 * (l * l) - 4 * l + 1) by (nonlinear_arith);
        assert((2 * l + 1) * (2 * l + 1) == 4 * (l * l + l) + 1) by (nonlinear_arith);
        low as u32
    }
}

/// A root is far below the limit.
proof fn roots_are_below_the_limit(y: int, g: int)
    requires
        0 <= y <= 0x100_0000,
        0 <= g <= 230,
    ensures
        y * pow2(g as nat) < limit(),
{
    lemma2_to64();
    sizes_by_parts(single::INFINITY_BITS);
    let (p, q, t) = (pow2(g as nat) as int, pow2(230) as int, pow2(254) as int);
    assert(limit() == 0x80_0000 * t);
    if g < 230 {
        lemma_pow2_strictly_increases(g as nat, 230);
    }
    lemma_pow2_adds(230, 24);
    lemma_pow2_pos(230);
    lemma_pow2_pos(254);
    assert(t == q * 0x100_0000);
    assert(y * p <= 0x100_0000 * q) by (nonlinear_arith)
        requires
            0 <= y <= 0x100_0000,
            0 <= p <= q,
    ;
}

fn find_root(a: u32) -> (r: u32)
    ensures
        is_root(a, r),
{
    let mag: u32 = a % 0x8000_0000;
    proof {
        if mag > 0 {
            single::scaled_magnitude_is_monotone(0, mag);
        }
        lemma2_to64();
    }
    if mag == 0 {
        return a;
    }
    if a > single::INFINITY_BITS {
        return NAN_BITS;
    }
    if a == single::INFINITY_BITS {
        return a;
    }
    let (m, s) = split(mag);
    let n: u32 = rounding::count_bits(m as u128);
    proof {
        sizes_by_parts(mag);
        rounding::bit_lengths_bound(m as int);
        rounding::bit_length_is_bounded(m as int, 24);
    }
    // As many zeros are added as make 48 digits, or 47 if an even number is left.
    let j: u32 = if (s + 149 + n) % 2 == 0 {
        48 - n
    } else {
        47 - n
    };
    let d: u128 = rounding::power_of_two(j);
    proof {
        lemma2_to64_rest();
        lemma_pow2_adds((n - 1) as nat, j as nat);
        lemma_pow2_adds(n as nat, j as nat);
        let (lo, hi) = (pow2((n - 1) as nat) as int, pow2(n as nat) as int);
        assert(lo * d <= m * d && m * d < hi * d) by (nonlinear_arith)
            requires
                lo <= m < hi,
                d > 0,
        ;
    }
    let x: u64 = (m as u128 * d) as u64;
    let y: u32 = nearest_root(x);
    let g: u32 = (s + 149 - j) / 2;
    proof {
        let size = size_of(a) * pow2(149);
        let u = pow2((2 * g) as nat) as int;
        assert(2 * g + j == s + 149);
        lemma_pow2_adds(j as nat, (2 * g) as nat);
        lemma_pow2_adds(s as nat, 149);
        let (p, q) = (pow2(s as nat) as int, pow2(149) as int);
        assert(m * p * q == m * d * u) by (nonlinear_arith)
            requires
                p * q == d * u,
        ;
        assert(size == x * u);
        lemma_pow2_pos((2 * g) as nat);
        let (v, w) = ((2 * y - 1) * (2 * y - 1), (2 * y + 1) * (2 * y + 1));
        assert(v * u < 4 * (x * u) < w * u && 0x4000_0000_0000 * u <= x * u < 0x1_0000_0000_0000 * u)
            by (nonlinear_arith)
            requires
                v < 4 * x < w,
                0x4000_0000_0000 <= x < 0x1_0000_0000_0000,
                u > 0,
        ;
        assert(is_rounded_root(size, y as int, g as int));
    }
    let r: u32 = join(y, g);
    proof {
        roots_are_below_the_limit(y as int, g as int);
        assert(is_rounded_root(size_of(a) * pow2(149), y as int, g as int) && size_of(r) == y
            * pow2(g as nat));
    }
    r
}

/// Finds the square root of a number.
pub fn square_root(a: u32) -> (r: u32)
    ensures
        is_root(a, r),
        r == root(a),
{
    let r: u32 = find_root(a);
    proof {
        let t = root(a);
        assert(is_root(a, t));
        if is_finite(a) && size_of(a) != 0 && !single::is_negative(a) {
            let n = size_of(a) * pow2(149);
            let (m, g) = choose|m: int, g: int|
                #![trigger is_rounded_root(n, m, g)]
                is_rounded_root(n, m, g) && size_of(r) == m * pow2(g as nat);
            let (k, h) = choose|m: int, g: int|
                #![trigger is_rounded_root(n, m, g)]
                is_rounded_root(n, m, g) && size_of(t) == m * pow2(g as nat);
            rounded_roots_are_unique(n, m, g, k, h);
            single::scaled_magnitude_is_monotone(single::magnitude(r), single::INFINITY_BITS);
            numbers_are_unique(r, t, false, size_of(r));
        }
    }
    r
}

// ---- Integers and order -----------------------------------------------------

/// Whether `r` is an integer in single precision.
pub open spec fn is_integer_form(n: u32, r: u32) -> bool {
    is_number(r, false, rounding::to_24_bits(n * pow2(149)))
}

/// An integer in single precision.
pub open spec fn integer_form(n: u32) -> u32 {
    choose|r: u32| is_integer_form(n, r)
}

/// Converts an integer to single precision.
pub fn from_u32(n: u32) -> (r: u32)
    ensures
        is_integer_form(n, r),
        r == integer_form(n),
{
    let r: u32 = encode(n as u128, 149);
    proof {
        assert(is_integer_form(n, r));
        assert(is_integer_form(n, integer_form(n)));
        numbers_are_unique(
            r,
            integer_form(n),
            false,
            rounding::to_24_bits(n * pow2(149)),
        );
    }
    r
}

/// Whether a number is less than another one. What is not a number is not.
pub open spec fn is_less(a: u32, b: u32) -> bool {
    !single::is_nan(a) && !single::is_nan(b) && single::scaled(a) < single::scaled(b)
}

/// Compares two numbers.
pub fn less_than(a: u32, b: u32) -> (r: bool)
    ensures
        r == is_less(a, b),
{
    let (na, nb) = (a >= 0x8000_0000, b >= 0x8000_0000);
    let (ma, mb): (u32, u32) = (a % 0x8000_0000, b % 0x8000_0000);
    if ma > single::INFINITY_BITS || mb > single::INFINITY_BITS {
        return false;
    }
    proof {
        single::magnitudes_are_nonnegative();
        if ma < mb {
            single::scaled_magnitude_is_monotone(ma, mb);
        } else if mb < ma {
            single::scaled_magnitude_is_monotone(mb, ma);
        }
        if ma > 0 {
            single::scaled_magnitude_is_monotone(0, ma);
        }
        if mb > 0 {
            single::scaled_magnitude_is_monotone(0, mb);
        }
    }
    if na {
        if nb {
            ma > mb
        } else {
            ma > 0 || mb > 0
        }
    } else {
        !nb && ma < mb
    }
}

/// Whether `r` is a number without the digits below one.
pub open spec fn is_cut(a: u32, r: u32) -> bool {
    if single::is_nan(a) || single::is_infinite(a) {
        r == a
    } else {
        is_number(
            r,
            single::is_negative(a),
            size_of(a) / (pow2(149) as int) * (pow2(149) as int),
        )
    }
}

/// A number without the digits below one.
pub open spec fn cut(a: u32) -> u32 {
    choose|r: u32| is_cut(a, r)
}

proof fn cut_by_parts(m: int, s: int)
    requires
        0 <= m < 0x100_0000,
        0 <= s,
    ensures
        ({
            let a = m * pow2(s as nat);
            let c = pow2(149) as int;
            &&& s < 126 ==> a / c == 0
            &&& 126 <= s < 149 ==> a / c * c == (m - m % (pow2((149 - s) as nat) as int)) * pow2(
                s as nat,
            )
            &&& 149 <= s ==> a / c * c == a
        }),
{
    lemma2_to64();
    let a = m * pow2(s as nat);
    let c = pow2(149) as int;
    lemma_pow2_pos(149);
    lemma_pow2_pos(s as nat);
    let p = pow2(s as nat) as int;
    if s < 126 {
        lemma_pow2_adds(24, 125);
        if s < 125 {
            lemma_pow2_strictly_increases(s as nat, 125);
        }
        assert(0 <= m * p < 0x100_0000 * pow2(125)) by (nonlinear_arith)
            requires
                0 <= m < 0x100_0000,
                0 < p <= pow2(125),
        ;
        lemma_basic_div(a, c);
    } else if s < 149 {
        lemma_pow2_adds(s as nat, (149 - s) as nat);
        lemma_pow2_pos((149 - s) as nat);
        let b = pow2((149 - s) as nat) as int;
        assert(a == p * m) by (nonlinear_arith)
            requires
                a == m * p,
        ;
        lemma_div_multiples_vanish_quotient(p, m, b);
        lemma_fundamental_div_mod(m, b);
        assert(m / b * (p * b) == (m - m % b) * p) by (nonlinear_arith)
            requires
                m == b * (m / b) + m % b,
        ;
    } else {
        lemma_pow2_adds(149, (s - 149) as nat);
        let b = pow2((s - 149) as nat) as int;
        assert(a == c * (m * b)) by (nonlinear_arith)
            requires
                a == m * (c * b),
        ;
        lemma_div_multiples_vanish(m * b, c);
        assert(m * b * c == c * (m * b)) by (nonlinear_arith);
    }
}

fn find_cut(a: u32) -> (r: u32)
    ensures
        is_cut(a, r),
{
    let negative = a >= 0x8000_0000;
    let mag: u32 = a % 0x8000_0000;
    if mag >= single::INFINITY_BITS {
        return a;
    }
    let (m, s) = split(mag);
    proof {
        sizes_by_parts(mag);
        cut_by_parts(m as int, s as int);
        single::scaled_magnitude_is_monotone(0, single::INFINITY_BITS);
        single::scaled_magnitude_is_monotone(mag, single::INFINITY_BITS);
    }
    if s < 126 {
        return with_sign(negative, 0);
    }
    if s >= 149 {
        return a;
    }
    let d: u128 = rounding::power_of_two(149 - s);
    let rest: u32 = (m as u128 % d) as u32;
    proof {
        lemma2_to64();
        if 149 - s < 23 {
            lemma_pow2_strictly_increases((149 - s) as nat, 23);
        }
        lemma_pow2_adds((149 - s) as nat, (s - 126) as nat);
        // The mantissa has its leading digit above the cut.
        let (q, e) = (d as int, pow2((s - 126) as nat) as int);
        lemma_fundamental_div_mod(m as int, q);
        assert(m - m as int % q >= 0x80_0000) by (nonlinear_arith)
            requires
                m >= 0x80_0000,
                q * e == 0x80_0000,
                m as int == q * (m as int / q) + m as int % q,
                0 <= m as int % q < q,
                q > 0,
        ;
        let x = (m - rest) * pow2(s as nat);
        let y = m * pow2(s as nat);
        assert(x <= y) by (nonlinear_arith)
            requires
                x == (m - rest) * pow2(s as nat),
                y == m * pow2(s as nat),
                rest >= 0,
                pow2(s as nat) >= 0,
        ;
    }
    with_sign(negative, join(m - rest, s))
}

/// Cuts the digits below one.
pub fn truncate(a: u32) -> (r: u32)
    ensures
        is_cut(a, r),
        r == cut(a),
{
    let r: u32 = find_cut(a);
    proof {
        assert(is_cut(a, cut(a)));
        if is_finite(a) {
            numbers_are_unique(
                r,
                cut(a),
                single::is_negative(a),
                size_of(a) / (pow2(149) as int) * (pow2(149) as int),
            );
        }
    }
    r
}

// ---- Nearest integers -------------------------------------------------------

/// A signed count, held to the range of 64 bits.
pub open spec fn held(negative: bool, n: int) -> int {
    if negative {
        if n > 0x8000_0000_0000_0000 {
            i64::MIN as int
        } else {
            -n
        }
    } else {
        if n > i64::MAX {
            i64::MAX as int
        } else {
            n
        }
    }
}

fn hold(negative: bool, n: u128) -> (r: i64)
    ensures
        r == held(negative, n as int),
{
    if negative {
        if n >= 0x8000_0000_0000_0000 {
            i64::MIN
        } else {
            -(n as i64)
        }
    } else {
        if n > 0x7FFF_FFFF_FFFF_FFFF {
            i64::MAX
        } else {
            n as i64
        }
    }
}

/// The integer nearest to a number, away from zero if two are as near, held to the range
/// of 64 bits; 0 for what is not a number.
pub open spec fn nearest_whole(bits: u32) -> int {
    if single::is_nan(bits) {
        0
    } else {
        held(
            single::is_negative(bits),
            (2 * size_of(bits) + pow2(149)) / (pow2(150) as int),
        )
    }
}

proof fn halves(m: int, s: int)
    requires
        0 <= m < 0x100_0000,
        0 <= s,
    ensures
        ({
            let n = (2 * (m * pow2(s as nat)) + pow2(149)) / (pow2(150) as int);
            &&& s < 125 ==> n == 0
            &&& 125 <= s < 149 ==> n == (m + pow2((148 - s) as nat)) / (pow2(
                (149 - s) as nat,
            ) as int)
            &&& 149 <= s ==> n == m * pow2((s - 149) as nat)
        }),
{
    lemma2_to64();
    lemma_pow2_unfold(150);
    lemma_pow2_pos(149);
    let c = pow2((s + 1) as nat) as int;
    lemma_pow2_unfold((s + 1) as nat);
    lemma_pow2_pos((s + 1) as nat);
    assert(2 * (m * pow2(s as nat)) == m * c) by (nonlinear_arith)
        requires
            c == 2 * pow2(s as nat),
    ;
    if s < 125 {
        lemma_pow2_adds(24, 125);
        if s + 1 < 125 {
            lemma_pow2_strictly_increases((s + 1) as nat, 125);
        }
        assert(0 <= m * c < 0x100_0000 * pow2(125)) by (nonlinear_arith)
            requires
                0 <= m < 0x100_0000,
                0 < c <= pow2(125),
        ;
        lemma_basic_div(m * c + pow2(149), pow2(150) as int);
    } else if s < 149 {
        let a = pow2((148 - s) as nat) as int;
        let b = pow2((149 - s) as nat) as int;
        lemma_pow2_adds((s + 1) as nat, (148 - s) as nat);
        lemma_pow2_adds((s + 1) as nat, (149 - s) as nat);
        lemma_pow2_pos((149 - s) as nat);
        lemma_pow2_pos((148 - s) as nat);
        assert(m * c + c * a == c * (m + a)) by (nonlinear_arith);
        lemma_div_multiples_vanish_quotient(c, m + a, b);
    } else {
        let b = pow2((s - 149) as nat) as int;
        lemma_pow2_adds(150, (s - 149) as nat);
        let d = pow2(150) as int;
        assert(m * (d * b) == d * (m * b)) by (nonlinear_arith);
        lemma_div_multiples_vanish_fancy(m * b, pow2(149) as int, d);
    }
}

/// Rounds a number to the nearest integer.
pub fn round_to_i64(bits: u32) -> (r: i64)
    ensures
        r == nearest_whole(bits),
{
    let negative = bits >= 0x8000_0000;
    let mag: u32 = bits % 0x8000_0000;
    if mag > single::INFINITY_BITS {
        return 0;
    }
    let (m, s) = split(mag);
    proof {
        sizes_by_parts(mag);
        halves(m as int, s as int);
    }
    if s < 125 {
        return 0;
    }
    if s < 149 {
        let a: u128 = rounding::power_of_two(148 - s);
        let b: u128 = rounding::power_of_two(149 - s);
        proof {
            lemma2_to64();
            if 148 - s < 23 {
                lemma_pow2_strictly_increases((148 - s) as nat, 23);
            }
        }
        return hold(negative, (m as u128 + a) / b);
    }
    if s >= 190 {
        proof {
            lemma2_to64();
            lemma2_to64_rest();
            lemma_pow2_pos((s - 149) as nat);
            if s > 190 {
                lemma_pow2_strictly_increases(41, (s - 149) as nat);
            }
            assert(m * pow2((s - 149) as nat) >= 0x80_0000 * 0x200_0000_0000) by (nonlinear_arith)
                requires
                    m >= 0x80_0000,
                    pow2((s - 149) as nat) >= 0x200_0000_0000,
            ;
        }
        return if negative {
            i64::MIN
        } else {
            i64::MAX
        };
    }
    let c: u128 = rounding::power_of_two(s - 149);
    proof {
        lemma2_to64();
        lemma2_to64_rest();
        if s - 149 < 41 {
            lemma_pow2_strictly_increases((s - 149) as nat, 41);
        }
        assert(m * c <= 0x100_0000 * 0x200_0000_0000) by (nonlinear_arith)
            requires
                0 <= m <= 0x100_0000,
                0 <= c <= 0x200_0000_0000,
        ;
    }
    hold(negative, m as u128 * c)
}

// ---- Opposite numbers -------------------------------------------------------

/// Whether two patterns stand for opposite numbers, or both for none.
#[verifier::opaque]
pub open spec fn are_opposite(a: u32, b: u32) -> bool {
    single::is_nan(a) == single::is_nan(b) && (!single::is_nan(a) ==> single::scaled(a)
        == -single::scaled(b))
}

/// Every size of at most 24 binary digits above the unit has a number.
proof fn sizes_have_numbers(y: int, s: int, negative: bool) -> (r: u32)
    requires
        0 <= y <= 0x100_0000,
        0 <= s,
        s == 0 || y >= 0x80_0000,
    ensures
        is_number(r, negative, y * pow2(s as nat)),
{
    let v = y * pow2(s as nat);
    let mag: u32 = if s < 300 {
        (s * 0x80_0000 + y) as u32
    } else {
        single::INFINITY_BITS
    };
    if s < 300 {
        pattern_value(y, s);
        if mag < single::INFINITY_BITS {
            single::scaled_magnitude_is_monotone(mag, single::INFINITY_BITS);
        } else if mag > single::INFINITY_BITS {
            single::scaled_magnitude_is_monotone(single::INFINITY_BITS, mag);
        }
    } else {
        assert(limit() == 0x80_0000 * pow2(254));
        lemma_pow2_strictly_increases(254, s as nat);
        assert(v >= 0x80_0000 * pow2(254)) by (nonlinear_arith)
            requires
                v == y * pow2(s as nat),
                y >= 0x80_0000,
                pow2(s as nat) > pow2(254),
        ;
    }
    let held: u32 = if mag > single::INFINITY_BITS {
        single::INFINITY_BITS
    } else {
        mag
    };
    if negative {
        (held + 0x8000_0000) as u32
    } else {
        held
    }
}

/// A number cut by a power of two has at most 24 binary digits if it had no more than
/// 24 above it.
proof fn cut_sizes(x: int, g: nat)
    requires
        0 <= x < 0x100_0000 * pow2(g),
    ensures
        0 <= rounding::nearest_even(x, pow2(g) as int) <= 0x100_0000,
        x >= 0x80_0000 * pow2(g) ==> rounding::nearest_even(x, pow2(g) as int) >= 0x80_0000,
{
    lemma_pow2_pos(g);
    let d = pow2(g) as int;
    let q = x / d;
    assert(0 <= q < 0x100_0000 && (x >= 0x80_0000 * d ==> q >= 0x80_0000)) by (nonlinear_arith)
        requires
            q == x / d,
            0 <= x < 0x100_0000 * d,
            d > 0,
    ;
}

/// Any two patterns have a sum.
pub(crate) proof fn sums_exist(a: u32, b: u32)
    ensures
        is_sum(a, b, sum(a, b)),
{
    if is_finite(a) && is_finite(b) {
        let t = single::scaled(a) + single::scaled(b);
        let x = if t < 0 {
            -t
        } else {
            t
        };
        lemma2_to64();
        if t == 0 {
            times_one(0);
            let r = sizes_have_numbers(0, 0, single::is_negative(a) && single::is_negative(b));
            assert(is_sum(a, b, r));
        } else {
            rounding::bit_lengths_bound(x);
            let e = rounding::bit_length(x) - 24;
            if e <= 0 {
                if e < 0 {
                    lemma_pow2_strictly_increases(rounding::bit_length(x) as nat, 24);
                }
                times_one(x);
                let r = sizes_have_numbers(x, 0, t < 0);
                assert(is_sum(a, b, r));
            } else {
                lemma_pow2_adds(24, e as nat);
                lemma_pow2_adds(23, e as nat);
                cut_sizes(x, e as nat);
                let y = rounding::nearest_even(x, pow2(e as nat) as int);
                let r = sizes_have_numbers(y, e, t < 0);
                assert(is_sum(a, b, r));
            }
        }
    } else if single::is_nan(a) || single::is_nan(b) || (single::is_infinite(a)
        && single::is_infinite(b) && a != b) {
        assert(is_sum(a, b, NAN_BITS));
    } else if single::is_infinite(a) {
        assert(is_sum(a, b, a));
    } else {
        assert(is_sum(a, b, b));
    }
}

/// Any two patterns have a product.
pub(crate) proof fn products_exist(a: u32, b: u32)
    ensures
        is_product(a, b, product(a, b)),
{
    let negative = single::is_negative(a) != single::is_negative(b);
    if single::is_nan(a) || single::is_nan(b) || (single::is_infinite(a) && size_of(b) == 0) || (
    single::is_infinite(b) && size_of(a) == 0) {
        assert(is_product(a, b, NAN_BITS));
    } else if single::is_infinite(a) || single::is_infinite(b) {
        let r: u32 = if negative {
            single::NEG_INFINITY_BITS
        } else {
            single::INFINITY_BITS
        };
        assert(is_product(a, b, r));
    } else {
        single::magnitudes_are_nonnegative();
        let p = size_of(a) * size_of(b);
        assert(p >= 0) by (nonlinear_arith)
            requires
                p == size_of(a) * size_of(b),
                size_of(a) >= 0,
                size_of(b) >= 0,
        ;
        lemma2_to64();
        rounding::bit_lengths_bound(p);
        let len = rounding::bit_length(p);
        let g: int = if len - 24 < 149 {
            149
        } else {
            len - 24
        };
        lemma_pow2_adds(24, g as nat);
        lemma_pow2_adds(23, g as nat);
        if len < 24 + g {
            lemma_pow2_strictly_increases(len as nat, (24 + g) as nat);
        }
        cut_sizes(p, g as nat);
        let y = rounding::nearest_even(p, pow2(g as nat) as int);
        let r = sizes_have_numbers(y, g - 149, negative);
        assert(is_product(a, b, r));
    }
}

/// The pattern with the other sign stands for the opposite number.
pub proof fn negations_are_opposite(a: u32)
    ensures
        are_opposite(a, single::negated(a)),
{
    reveal(are_opposite);
    single::negation_is_an_involution(a);
}

/// Changing the sign of two opposite numbers leaves them opposite.
pub proof fn negations_of_opposites(a: u32, b: u32)
    requires
        are_opposite(a, b),
    ensures
        are_opposite(single::negated(a), single::negated(b)),
{
    reveal(are_opposite);
    single::negation_is_an_involution(a);
    single::negation_is_an_involution(b);
}

/// The opposite of a negative number is not negative, nor is it no number.
pub proof fn opposites_of_negative_numbers(a: u32, b: u32)
    requires
        are_opposite(a, b),
        is_less(a, 0),
    ensures
        !single::is_nan(b),
        !is_less(b, 0),
{
    reveal(are_opposite);
}

/// Patterns of opposite numbers differ in nothing but their sign.
proof fn opposites_have_one_size(a: u32, b: u32)
    requires
        are_opposite(a, b),
        !single::is_nan(a),
    ensures
        single::magnitude(a) == single::magnitude(b),
        size_of(a) != 0 ==> single::is_negative(a) != single::is_negative(b),
{
    reveal(are_opposite);
    single::magnitudes_are_nonnegative();
    let (x, y) = (single::magnitude(a), single::magnitude(b));
    if x < y {
        single::scaled_magnitude_is_monotone(x, y);
    } else if y < x {
        single::scaled_magnitude_is_monotone(y, x);
    }
}

/// Opposite numbers have opposite sums.
pub proof fn sums_of_opposites(a: u32, b: u32, c: u32, d: u32)
    requires
        are_opposite(a, c),
        are_opposite(b, d),
    ensures
        are_opposite(sum(a, b), sum(c, d)),
{
    reveal(are_opposite);
    sums_exist(a, b);
    sums_exist(c, d);
    if !single::is_nan(a) && !single::is_nan(b) {
        opposites_have_one_size(a, c);
        opposites_have_one_size(b, d);
        single::scaled_magnitude_is_monotone(0, single::INFINITY_BITS);
    }
}

pub(crate) proof fn products_with_zero(x: int)
    ensures
        size_product(0, x) == 0,
        size_product(x, 0) == 0,
{
    assert(0 * x == 0 && x * 0 == 0) by (nonlinear_arith);
    lemma_pow2_pos(149);
    lemma_basic_div(0, pow2(149) as int);
    assert(rounding::bit_length(0) == 0);
    assert(rounding::nearest_even(0, pow2(149) as int) == 0);
    times_one(0);
}

/// The product with the opposite of a number is opposite.
pub proof fn products_of_opposites(a: u32, b: u32, c: u32)
    requires
        are_opposite(a, b),
    ensures
        are_opposite(product(a, c), product(b, c)),
        are_opposite(product(c, a), product(c, b)),
{
    reveal(are_opposite);
    products_exist(a, c);
    products_exist(b, c);
    products_exist(c, a);
    products_exist(c, b);
    if !single::is_nan(a) && !single::is_nan(c) {
        opposites_have_one_size(a, b);
        single::scaled_magnitude_is_monotone(0, single::INFINITY_BITS);
        if size_of(a) == 0 {
            products_with_zero(size_of(c));
        }
    }
}

// ---- Scaling to a limit -----------------------------------------------------

/// Any two patterns have a quotient.
pub(crate) proof fn quotients_exist(a: u32, b: u32)
    ensures
        is_quotient(a, b, quotient(a, b)),
{
    let negative = single::is_negative(a) != single::is_negative(b);
    if single::is_nan(a) || single::is_nan(b) || (single::is_infinite(a) && single::is_infinite(b))
        || (size_of(a) == 0 && size_of(b) == 0) {
        assert(is_quotient(a, b, NAN_BITS));
    } else if single::is_infinite(a) || size_of(b) == 0 {
        let r: u32 = if negative {
            single::NEG_INFINITY_BITS
        } else {
            single::INFINITY_BITS
        };
        assert(is_quotient(a, b, r));
    } else if single::is_infinite(b) {
        times_one(0);
        let r = sizes_have_numbers(0, 0, negative);
        assert(is_quotient(a, b, r));
    } else {
        single::magnitudes_are_nonnegative();
        let (y, g) = quotient_parts(size_of(a), size_of(b));
        let r = sizes_have_numbers(y, g, negative);
        assert(is_quotient(a, b, r));
    }
}

/// A quotient of sizes has at most 24 binary digits above its unit.
proof fn quotient_parts(a: int, b: int) -> (r: (int, int))
    requires
        0 <= a,
        0 < b,
    ensures
        ({
            let (y, g) = r;
            &&& size_quotient(a, b) == y * pow2(g as nat)
            &&& y == rounding::nearest_even(a * pow2(149), b * pow2(g as nat))
            &&& 0 <= y <= 0x100_0000
            &&& 0 <= g
            &&& g > 0 ==> y >= 0x80_0000 && a * pow2(149) >= 0x80_0000 * (b * pow2(g as nat))
        }),
{
    lemma2_to64();
    lemma_pow2_pos(149);
    let n = a * pow2(149);
    assert(n >= 0) by (nonlinear_arith)
        requires
            n == a * pow2(149),
            a >= 0,
    ;
    let q = n / b;
    lemma_div_pos_is_pos(n, b);
    rounding::bit_lengths_bound(q);
    let len = rounding::bit_length(q);
    let g: int = if len - 24 < 0 {
        0
    } else {
        len - 24
    };
    let d = pow2(g as nat) as int;
    lemma_pow2_pos(g as nat);
    lemma_pow2_adds(24, g as nat);
    lemma_pow2_adds(23, g as nat);
    if len < 24 + g {
        lemma_pow2_strictly_increases(len as nat, (24 + g) as nat);
    }
    lemma_div_denominator(n, b, d);
    let h = q / d;
    assert(0 <= h < 0x100_0000 && (g > 0 ==> h >= 0x80_0000)) by (nonlinear_arith)
        requires
            h == q / d,
            0 <= q < 0x100_0000 * d,
            g > 0 ==> q >= 0x80_0000 * d,
            d > 0,
    ;
    assert(b * d > 0) by (nonlinear_arith)
        requires
            b > 0,
            d > 0,
    ;
    lemma_fundamental_div_mod(n, b * d);
    if g > 0 {
        lemma_mod_bound(n, b * d);
        assert(n >= 0x80_0000 * (b * d)) by (nonlinear_arith)
            requires
                n == (b * d) * h + n % (b * d),
                n % (b * d) >= 0,
                h >= 0x80_0000,
                b * d > 0,
        ;
    }
    (rounding::nearest_even(n, b * d), g)
}

/// Every integer of 32 bits has a form in single precision: a positive number of at most
/// 2^32, and the integer itself below 2^24.
pub(crate) proof fn integer_forms_exist(n: u32)
    ensures
        is_integer_form(n, integer_form(n)),
        is_finite(integer_form(n)),
        !single::is_negative(integer_form(n)),
        ({
            let y = size_of(integer_form(n));
            &&& n == 0 ==> y == 0
            &&& n > 0 ==> pow2(149) <= y <= 0x1_0000_0000 * pow2(149)
            &&& n < 0x100_0000 ==> y == n * pow2(149)
        }),
{
    lemma2_to64();
    lemma2_to64_rest();
    let p = pow2(149) as int;
    lemma_pow2_pos(149);
    rounding::rounding_of_shifted(n as int, 149);
    let v = rounding::to_24_bits(n as int);
    rounding::bit_lengths_bound(n as int);
    rounding::bit_length_is_bounded(n as int, 32);
    let len = rounding::bit_length(n as int);
    if n == 0 {
        times_one(0);
        assert(0 * p == 0) by (nonlinear_arith);
        let r = sizes_have_numbers(0, 0, false);
        assert(is_integer_form(n, r));
    } else if len > 24 {
        let e = (len - 24) as nat;
        lemma_pow2_adds(24, e);
        lemma_pow2_adds(23, e);
        lemma_pow2_adds(e, 149);
        cut_sizes(n as int, e);
        let y = rounding::nearest_even(n as int, pow2(e) as int);
        assert(y * pow2(e) * p == y * (pow2(e) * p)) by (nonlinear_arith);
        if e < 8 {
            lemma_pow2_strictly_increases(e, 8);
        }
        lemma_pow2_pos(e);
        assert(0 < y * pow2(e) <= 0x1_0000_0000) by (nonlinear_arith)
            requires
                0x80_0000 <= y <= 0x100_0000,
                0 < pow2(e) <= 0x100,
        ;
        let r = sizes_have_numbers(y, e as int + 149, false);
        assert(is_integer_form(n, r));
        if n < 0x100_0000 {
            rounding::bit_length_is_bounded(n as int, 24);
        }
    } else {
        let j = (24 - len) as nat;
        lemma_pow2_adds(len as nat, j);
        lemma_pow2_adds((len - 1) as nat, j);
        lemma_pow2_adds(j, (149 - j) as nat);
        lemma_pow2_pos(j);
        let d = pow2(j) as int;
        let y = n * d;
        assert(0x80_0000 <= y <= 0x100_0000) by (nonlinear_arith)
            requires
                y == n * d,
                pow2((len - 1) as nat) <= n < pow2(len as nat),
                pow2((len - 1) as nat) * d == 0x80_0000,
                pow2(len as nat) * d == 0x100_0000,
                d > 0,
        ;
        assert(n * (d * pow2((149 - j) as nat)) == y * pow2((149 - j) as nat))
            by (nonlinear_arith)
            requires
                y == n * d,
        ;
        let r = sizes_have_numbers(y, 149 - j, false);
        assert(is_integer_form(n, r));
    }
    assert(is_integer_form(n, integer_form(n)));
    assert(v * p <= 0x1_0000_0000 * p && (v > 0 ==> v * p >= p)) by (nonlinear_arith)
        requires
            v <= 0x1_0000_0000,
            p > 0,
    ;
    lemma_pow2_adds(32, 149);
    lemma_pow2_strictly_increases(181, 254);
    assert(limit() == 0x80_0000 * pow2(254));
    assert(v * p < limit());
}

/// Rounding a quotient to an integer adds at most half of the divisor.
proof fn nearest_is_near(n: int, d: int)
    requires
        0 < d,
    ensures
        2 * (rounding::nearest_even(n, d) * d) <= 2 * n + d,
{
    lemma_fundamental_div_mod(n, d);
    lemma_mod_bound(n, d);
    let q = n / d;
    assert(q * d + n % d == n) by (nonlinear_arith)
        requires
            n == d * q + n % d,
    ;
    assert((q + 1) * d == q * d + d) by (nonlinear_arith);
}

/// What is divided and then multiplied by the same number exceeds the former by no more
/// than one part in 2^23, the roundings of both steps taken together.
proof fn scaled_back(m: int, w: int, f: int)
    requires
        0 < m < 0x80_0000,
        0 < w <= 0x1_0000_0000 * pow2(149),
        0 <= f <= size_quotient(m * pow2(149), w),
    ensures
        size_product(w, f) < (m + 1) * pow2(149),
{
    lemma2_to64();
    lemma2_to64_rest();
    lemma_pow2_pos(149);
    let u = pow2(149) as int;
    // The quotient.
    let a = m * u;
    let n = a * u;
    assert(a > 0 && n > 0) by (nonlinear_arith)
        requires
            a == m * u,
            n == a * u,
            m > 0,
            u > 0,
    ;
    let (y, g) = quotient_parts(a, w);
    let c = pow2(g as nat) as int;
    lemma_pow2_pos(g as nat);
    let d = w * c;
    assert(d > 0) by (nonlinear_arith)
        requires
            d == w * c,
            w > 0,
            c > 0,
    ;
    nearest_is_near(n, d);
    assert(0x80_0000 * d <= n) by {
        if g == 0 {
            lemma_pow2_adds(55, 94);
            lemma_pow2_strictly_increases(55, 94);
            times_one(w);
            assert(0x80_0000 * w <= n) by (nonlinear_arith)
                requires
                    w <= 0x1_0000_0000 * u,
                    n == m * u * u,
                    m > 0,
                    u >= 0x80_0000_0000_0000,
            ;
        }
    }
    let q = y * c;
    assert(q * w == y * d) by (nonlinear_arith)
        requires
            q == y * c,
            d == w * c,
    ;
    // The product.
    let p = w * f;
    assert(0 <= p <= q * w) by (nonlinear_arith)
        requires
            p == w * f,
            0 <= f <= q,
            w > 0,
    ;
    rounding::bit_lengths_bound(p);
    let len = rounding::bit_length(p);
    let h: int = if len - 24 < 149 {
        149
    } else {
        len - 24
    };
    let e = pow2(h as nat) as int;
    lemma_pow2_pos(h as nat);
    nearest_is_near(p, e);
    assert(h > 149 ==> 0x80_0000 * e <= p) by {
        lemma_pow2_adds(23, h as nat);
    }
    lemma_pow2_adds((h - 149) as nat, 149);
    let z = rounding::nearest_even(p, e);
    let k = pow2((h - 149) as nat) as int;
    let r = z * k;
    assert(r * u == z * e) by (nonlinear_arith)
        requires
            r == z * k,
            e == k * u,
    ;
    // 2 p <= 2 n + d and 2 z e <= 2 p + e, with d and e small against n and p.
    let uu = u * u;
    assert(n == m * uu) by (nonlinear_arith)
        requires
            n == a * u,
            a == m * u,
            uu == u * u,
    ;
    lemma_pow2_adds(55, 94);
    lemma_pow2_strictly_increases(55, 94);
    assert(uu >= 0x80_0000_0000_0000 * u) by (nonlinear_arith)
        requires
            uu == u * u,
            u >= 0x80_0000_0000_0000,
    ;
    assert(m * uu <= 0x7F_FFFF * uu) by (nonlinear_arith)
        requires
            m <= 0x7F_FFFF,
            uu > 0,
    ;
    assert((m + 1) * uu == n + uu) by (nonlinear_arith)
        requires
            n == m * uu,
    ;
    assert(2 * p <= 2 * n + d);
    assert(z * e < n + uu) by {
        if h == 149 {
            assert(e == u);
        }
    }
    assert(r < (m + 1) * u) by (nonlinear_arith)
        requires
            r * u < (m + 1) * uu,
            uu == u * u,
            u > 0,
    ;
}

/// An integer that is scaled by the quotient of a limit below 2^23 and itself, or by
/// less, and then cut to an integer does not exceed the limit.
pub proof fn scaled_integers_keep_a_limit(n: u32, max: u32, factor: u32)
    requires
        0 < max < 0x80_0000,
        !single::is_nan(factor),
        !single::is_negative(factor),
        single::scaled(factor) <= single::scaled(
            quotient(integer_form(max), integer_form(n)),
        ),
    ensures
        single::whole(product(integer_form(n), factor)) <= max,
{
    let (limit_form, form) = (integer_form(max), integer_form(n));
    integer_forms_exist(max);
    integer_forms_exist(n);
    quotients_exist(limit_form, form);
    products_exist(form, factor);
    let r = product(form, factor);
    lemma_pow2_pos(149);
    let u = pow2(149) as int;
    single::magnitudes_are_nonnegative();
    if n == 0 {
        products_with_zero(size_of(factor));
        if !single::is_nan(r) {
            lemma_basic_div(0, u);
        }
    } else {
        let q = quotient(limit_form, form);
        assert(max * u > 0) by (nonlinear_arith)
            requires
                max > 0,
                u > 0,
        ;
        scaled_quotients_are_finite(max as int, size_of(form));
        if single::is_infinite(factor) {
            single::scaled_magnitude_is_monotone(single::magnitude(q), single::INFINITY_BITS);
        }
        scaled_back(max as int, size_of(form), size_of(factor));
        let t = size_product(size_of(form), size_of(factor));
        lemma_pow2_adds(24, 149);
        lemma2_to64();
        lemma_pow2_strictly_increases(173, 254);
        assert((max + 1) * u <= 0x100_0000 * u) by (nonlinear_arith)
            requires
                max + 1 <= 0x100_0000,
                u > 0,
        ;
        assert(t < (max + 1) * u);
        sizes_by_parts(single::INFINITY_BITS);
        assert(limit() == 0x80_0000 * pow2(254));
        assert(0x100_0000 * u == pow2(173));
        assert(t < limit());
        assert(single::scaled(r) == t);
        assert(t / u < max + 1) by (nonlinear_arith)
            requires
                t < (max + 1) * u,
                u > 0,
        ;
    }
}

/// The quotient of a limit and an integer is finite.
proof fn scaled_quotients_are_finite(m: int, w: int)
    requires
        0 < m < 0x80_0000,
        w >= pow2(149),
    ensures
        size_quotient(m * pow2(149), w) < limit(),
{
    lemma2_to64();
    lemma_pow2_pos(149);
    let u = pow2(149) as int;
    let a = m * u;
    assert(a >= 0) by (nonlinear_arith)
        requires
            a == m * u,
            m > 0,
            u > 0,
    ;
    let (y, g) = quotient_parts(a, w);
    let c = pow2(g as nat) as int;
    lemma_pow2_pos(g as nat);
    let d = w * c;
    assert(d > 0) by (nonlinear_arith)
        requires
            d == w * c,
            w > 0,
            c > 0,
    ;
    nearest_is_near(a * u, d);
    let q = y * c;
    assert(q * w == y * d) by (nonlinear_arith)
        requires
            q == y * c,
            d == w * c,
    ;
    if g == 0 {
        lemma_pow2_strictly_increases(24, 254);
        times_one(y);
    } else {
        assert(q * w <= 2 * (a * u));
        assert(q <= 2 * a) by (nonlinear_arith)
            requires
                q * w <= 2 * (a * u),
                w >= u,
                u > 0,
                a >= 0,
        ;
        lemma_pow2_adds(24, 149);
        lemma_pow2_strictly_increases(173, 254);
        assert(2 * a <= 0x100_0000 * u) by (nonlinear_arith)
            requires
                a == m * u,
                m <= 0x80_0000,
                u > 0,
        ;
    }
    assert(limit() == 0x80_0000 * pow2(254));
}

/// The quotient of a positive integer and an integer is a number that is not negative.
pub(crate) proof fn integer_quotients_are_numbers(max: u32, n: u32)
    requires
        0 < max < 0x80_0000,
    ensures
        !single::is_nan(quotient(integer_form(max), integer_form(n))),
        !single::is_negative(quotient(integer_form(max), integer_form(n))),
{
    integer_forms_exist(max);
    integer_forms_exist(n);
    lemma_pow2_pos(149);
    quotients_exist(integer_form(max), integer_form(n));
}

} // verus!
