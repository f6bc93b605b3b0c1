//! Where single precision is exact: fractions of few digits whose denominator is a power
//! of two.
use vstd::prelude::*;
use vstd::arithmetic::div_mod::*;
use vstd::arithmetic::power2::*;

use crate::arith;
use crate::rounding;
use crate::single;

verus! {

/// Whether a pattern is that of the number `n / 2^k`.
pub open spec fn stands_for(bits: u32, n: int, k: nat) -> bool {
    &&& arith::is_finite(bits)
    &&& single::scaled(bits) == n * pow2((149 - k) as nat)
}

/// A size without its sign.
pub open spec fn size(n: int) -> int {
    if n < 0 {
        -n
    } else {
        n
    }
}

#[verifier::rlimit(50)]
proof fn few_digits_stay(x: int, s: nat)
    requires
        0 <= x < 0x100_0000,
    ensures
        rounding::to_24_bits(x * pow2(s)) == x * pow2(s),
        0 <= x * pow2(s),
        s <= 170 ==> x * pow2(s) < arith::limit(),
{
    lemma2_to64();
    lemma_pow2_pos(s);
    rounding::bit_length_is_bounded(x, 24);
    rounding::rounding_of_shifted(x, s);
    arith::sizes_by_parts(single::INFINITY_BITS);
    let p = pow2(s) as int;
    if s <= 170 {
        lemma_pow2_strictly_increases(s, 171);
        lemma_pow2_strictly_increases(171, 254);
        lemma_pow2_adds(171, 83);
        lemma_pow2_adds(1, 82);
        lemma_pow2_pos(82);
        let (q, t) = (pow2(171) as int, pow2(254) as int);
        assert(t >= 2 * q) by (nonlinear_arith)
            requires
                t == q * (2 * pow2(82)),
                pow2(82) >= 1,
                q > 0,
        ;
        assert(x * p < 0x80_0000 * t) by (nonlinear_arith)
            requires
                0 <= x < 0x100_0000,
                0 < p < q,
                t >= 2 * q,
        ;
    }
    assert(0 <= x * p) by (nonlinear_arith)
        requires
            0 <= x,
            0 < p,
    ;
}

pub(crate) proof fn signs_of_numbers(bits: u32, n: int, k: nat)
    requires
        k <= 149,
        stands_for(bits, n, k),
    ensures
        arith::size_of(bits) == size(n) * pow2((149 - k) as nat),
        n < 0 ==> single::is_negative(bits),
        n > 0 ==> !single::is_negative(bits),
        n == 0 <==> arith::size_of(bits) == 0,
{
    single::magnitudes_are_nonnegative();
    let p = pow2((149 - k) as nat) as int;
    lemma_pow2_pos((149 - k) as nat);
    assert((n < 0 ==> n * p < 0) && (n > 0 ==> n * p > 0) && (n == 0 ==> n * p == 0)) by (
    nonlinear_arith)
        requires
            p > 0,
    ;
    assert((-n) * p == -(n * p)) by (nonlinear_arith);
}

proof fn numbers_of_sizes(bits: u32, negative: bool, n: int, k: nat)
    requires
        k <= 149,
        size(n) < 0x100_0000,
        arith::is_number(bits, negative, size(n) * pow2((149 - k) as nat)),
        n != 0 ==> negative == (n < 0),
    ensures
        stands_for(bits, n, k),
{
    few_digits_stay(size(n), (149 - k) as nat);
    let p = pow2((149 - k) as nat) as int;
    assert((-n) * p == -(n * p) && 0 * p == 0) by (nonlinear_arith);
}

/// A number other than zero has one pattern.
pub proof fn patterns_are_unique(a: u32, b: u32, n: int, k: nat)
    requires
        k <= 149,
        size(n) < 0x100_0000,
        n != 0,
        stands_for(a, n, k),
        stands_for(b, n, k),
    ensures
        a == b,
{
    signs_of_numbers(a, n, k);
    signs_of_numbers(b, n, k);
    few_digits_stay(size(n), (149 - k) as nat);
    arith::numbers_are_unique(a, b, n < 0, size(n) * pow2((149 - k) as nat));
}

/// A fraction may be extended.
pub proof fn extended(a: u32, n: int, k: nat, j: nat)
    requires
        k + j <= 149,
        stands_for(a, n, k),
    ensures
        stands_for(a, n * pow2(j), k + j),
{
    let rest = (149 - k - j) as nat;
    lemma_pow2_adds(j, rest);
    assert(n * (pow2(j) * pow2(rest)) == n * pow2(j) * pow2(rest)) by (nonlinear_arith);
}

/// Fractions of one denominator add up exactly.
pub proof fn sums(a: u32, b: u32, m: int, n: int, k: nat)
    requires
        k <= 149,
        stands_for(a, m, k),
        stands_for(b, n, k),
        size(m + n) < 0x100_0000,
    ensures
        stands_for(arith::sum(a, b), m + n, k),
        m + n == 0 && !single::is_negative(a) ==> !single::is_negative(arith::sum(a, b)),
{
    arith::sums_exist(a, b);
    let p = pow2((149 - k) as nat) as int;
    lemma_pow2_pos((149 - k) as nat);
    let t = m + n;
    assert(m * p + n * p == t * p) by (nonlinear_arith)
        requires
            t == m + n,
    ;
    assert((t < 0 ==> t * p < 0) && (t > 0 ==> t * p > 0) && (t == 0 ==> t * p == 0)) by (
    nonlinear_arith)
        requires
            p > 0,
    ;
    assert((-t) * p == -(t * p)) by (nonlinear_arith);
    few_digits_stay(size(t), (149 - k) as nat);
    let r = arith::sum(a, b);
    if t == 0 {
        numbers_of_sizes(r, single::is_negative(a) && single::is_negative(b), 0, k);
    } else {
        numbers_of_sizes(r, t < 0, t, k);
    }
}

/// The difference of two fractions of one denominator is exact.
pub proof fn differences(a: u32, b: u32, m: int, n: int, k: nat)
    requires
        k <= 149,
        stands_for(a, m, k),
        stands_for(b, n, k),
        size(m - n) < 0x100_0000,
    ensures
        stands_for(arith::sum(a, single::negated(b)), m - n, k),
        m - n == 0 && !single::is_negative(a) ==> !single::is_negative(
            arith::sum(a, single::negated(b)),
        ),
{
    negations(b, n, k);
    sums(a, single::negated(b), m, -n, k);
}

/// A negated pattern is that of the negated number.
pub proof fn negations(b: u32, n: int, k: nat)
    requires
        k <= 149,
        stands_for(b, n, k),
    ensures
        stands_for(single::negated(b), -n, k),
{
    single::negation_is_an_involution(b);
    let p = pow2((149 - k) as nat) as int;
    assert((-n) * p == -(n * p)) by (nonlinear_arith);
}

/// Fractions of few digits are multiplied exactly.
pub proof fn products(a: u32, b: u32, m: int, n: int, k: nat, l: nat)
    requires
        k + l <= 149,
        stands_for(a, m, k),
        stands_for(b, n, l),
        size(m * n) < 0x100_0000,
    ensures
        stands_for(arith::product(a, b), m * n, k + l),
        !single::is_negative(a) && !single::is_negative(b) ==> !single::is_negative(
            arith::product(a, b),
        ),
{
    arith::products_exist(a, b);
    signs_of_numbers(a, m, k);
    signs_of_numbers(b, n, l);
    let (s, t) = ((149 - k) as nat, (149 - l) as nat);
    lemma_pow2_adds(s, t);
    let v = m * n;
    assert(size(m) * size(n) == size(v) && ((v < 0) <==> (m < 0 && n > 0) || (m > 0 && n < 0)) && (
    v == 0 <==> m == 0 || n == 0)) by (nonlinear_arith)
        requires
            v == m * n,
            size(m) == if m < 0 { -m } else { m },
            size(n) == if n < 0 { -n } else { n },
            size(v) == if v < 0 { -v } else { v },
    ;
    assert((size(m) * pow2(s)) * (size(n) * pow2(t)) == size(m) * size(n) * (pow2(s) * pow2(t)))
        by (nonlinear_arith);
    arith::whole_product(size(v), (s + t) as int);
    few_digits_stay(size(v), (149 - k - l) as nat);
    numbers_of_sizes(
        arith::product(a, b),
        single::is_negative(a) != single::is_negative(b),
        v,
        k + l,
    );
}

/// Multiplying by a power of two shortens a fraction.
pub proof fn products_with_powers(a: u32, b: u32, m: int, k: nat, j: nat)
    requires
        j <= k <= 149,
        stands_for(a, m, k),
        stands_for(b, pow2(j) as int, 0),
        size(m) < 0x100_0000,
    ensures
        stands_for(arith::product(a, b), m, (k - j) as nat),
        !single::is_negative(a) ==> !single::is_negative(arith::product(a, b)),
{
    arith::products_exist(a, b);
    lemma_pow2_pos(j);
    signs_of_numbers(a, m, k);
    signs_of_numbers(b, pow2(j) as int, 0);
    let s = (149 - k) as nat;
    lemma_pow2_adds(j, 149);
    lemma_pow2_adds(s, j + 149);
    let (p, q) = (pow2(s) as int, pow2(j + 149) as int);
    assert((size(m) * p) * q == size(m) * (p * q)) by (nonlinear_arith);
    arith::whole_product(size(m), (s + j + 149) as int);
    few_digits_stay(size(m), (149 - k + j) as nat);
    numbers_of_sizes(
        arith::product(a, b),
        single::is_negative(a) != single::is_negative(b),
        m,
        (k - j) as nat,
    );
}

/// The pattern of one is that of one.
pub proof fn one()
    ensures
        stands_for(single::ONE_BITS, 1, 0),
        arith::size_of(single::ONE_BITS) == pow2(149),
{
    lemma2_to64();
    arith::sizes_by_parts(single::ONE_BITS);
    lemma_pow2_adds(23, 126);
    assert(1 * pow2(149) == pow2(149));
}

/// The pattern of zero is that of zero, with either sign.
pub proof fn zero(k: nat)
    requires
        k <= 149,
    ensures
        stands_for(0, 0, k),
        stands_for(single::negated(0), 0, k),
{
    lemma2_to64();
    arith::sizes_by_parts(0);
    let p = pow2((149 - k) as nat) as int;
    assert(0 * p == 0) by (nonlinear_arith);
    single::negation_is_an_involution(0);
}

/// Multiplying by one changes no number, not even the sign of zero.
pub proof fn products_with_one(x: u32)
    requires
        !single::is_nan(x),
    ensures
        arith::product(x, single::ONE_BITS) == x,
{
    arith::products_exist(x, single::ONE_BITS);
    one();
    lemma_pow2_pos(149);
    single::scaled_magnitude_is_monotone(0, single::INFINITY_BITS);
    let r = arith::product(x, single::ONE_BITS);
    if single::is_infinite(x) {
        arith::numbers_are_unique(r, x, single::is_negative(x), arith::limit());
    } else {
        arith::sizes_by_parts(single::magnitude(x));
        let (m, s) = (arith::mantissa(single::magnitude(x)), arith::shift(single::magnitude(x)));
        lemma_pow2_adds(s as nat, 149);
        let (p, q) = (pow2(s as nat) as int, pow2(149) as int);
        assert((m * p) * q == m * (p * q)) by (nonlinear_arith);
        arith::whole_product(m, s + 149);
        few_digits_stay(m, s as nat);
        single::scaled_magnitude_is_monotone(single::magnitude(x), single::INFINITY_BITS);
        arith::numbers_are_unique(r, x, single::is_negative(x), arith::size_of(x));
    }
}

/// Integers of few digits are exact in single precision.
pub proof fn integers(n: u32)
    requires
        n < 0x100_0000,
    ensures
        stands_for(arith::integer_form(n), n as int, 0),
        !single::is_negative(arith::integer_form(n)),
        n == 0 ==> arith::integer_form(n) == 0,
{
    arith::integer_forms_exist(n);
    if n == 0 {
        let r = arith::integer_form(n);
        zero(0);
        lemma2_to64();
        arith::sizes_by_parts(single::INFINITY_BITS);
        few_digits_stay(0, 0);
        arith::numbers_are_unique(r, 0, false, 0);
    }
}

/// Dividing by a power of two extends a fraction.
#[verifier::rlimit(50)]
pub proof fn quotients_by_powers(a: u32, b: u32, m: int, k: nat, j: nat)
    requires
        k + j <= 149,
        stands_for(a, m, k),
        stands_for(b, pow2(j) as int, 0),
        size(m) < 0x100_0000,
    ensures
        stands_for(arith::quotient(a, b), m, k + j),
        !single::is_negative(a) ==> !single::is_negative(arith::quotient(a, b)),
{
    arith::quotients_exist(a, b);
    lemma2_to64();
    lemma_pow2_pos(j);
    signs_of_numbers(a, m, k);
    signs_of_numbers(b, pow2(j) as int, 0);
    let s = (149 - k) as nat;
    let rest = (149 - k - j) as nat;
    let d = pow2(j + 149) as int;
    lemma_pow2_adds(j, 149);
    lemma_pow2_pos(j + 149);
    lemma_pow2_adds(s, 149);
    lemma_pow2_adds(rest, j + 149);
    let q = size(m) * pow2(rest);
    let n = size(m) * pow2(s) * pow2(149);
    assert(n == d * q) by (nonlinear_arith)
        requires
            n == size(m) * pow2(s) * pow2(149),
            q == size(m) * pow2(rest),
            pow2(s) * pow2(149) == pow2(rest) * d,
    ;
    few_digits_stay(size(m), rest);
    lemma_div_multiples_vanish(q, d);
    assert(n / d == q) by {
        assert(d * q == q * d) by (nonlinear_arith);
    }
    let digits = rounding::bit_length(q) - 24;
    let g: nat = if digits < 0 {
        0
    } else {
        digits as nat
    };
    lemma_pow2_pos(g);
    rounding::nearest_of_multiples(q, pow2(g) as int, d);
    if g == 0 {
        assert(q / 1 == q && q % 1 == 0) by (nonlinear_arith);
        assert(pow2(g) == 1);
        assert(rounding::nearest_even(q, 1) == q);
        arith::times_one(q);
    } else {
        assert(digits == g);
        assert(rounding::to_24_bits(q) == rounding::nearest_even(q, pow2(g) as int) * pow2(g));
    }
    assert(rounding::nearest_even(q, pow2(g) as int) * pow2(g) == q);
    assert(arith::size_quotient(size(m) * pow2(s), d) == q);
    numbers_of_sizes(
        arith::quotient(a, b),
        single::is_negative(a) != single::is_negative(b),
        m,
        k + j,
    );
}

/// The whole part of a fraction that is not negative.
pub proof fn whole_parts(a: u32, m: int, k: nat)
    requires
        k <= 149,
        0 <= m < 0x100_0000,
        stands_for(a, m, k),
        m == 0 ==> !single::is_negative(a),
    ensures
        single::whole(a) == m / (pow2(k) as int),
        stands_for(arith::cut(a), m / (pow2(k) as int), 0),
        0 <= m / (pow2(k) as int) <= m,
{
    signs_of_numbers(a, m, k);
    lemma_pow2_pos(k);
    let (d, p, c) = (pow2(k) as int, pow2((149 - k) as nat) as int, pow2(149) as int);
    lemma_pow2_pos((149 - k) as nat);
    lemma_pow2_adds(k, (149 - k) as nat);
    let n = m / d;
    assert(m * p / c == n) by {
        rounding::nearest_of_multiples(m, d, p);
        assert(p * m == m * p && p * d == d * p) by (nonlinear_arith);
    }
    assert(0 <= n <= m) by {
        lemma_div_pos_is_pos(m, d);
        lemma_div_nonincreasing(m, d);
    }
    few_digits_stay(n, 149);
    let r = arith::cut(a);
    integers(n as u32);
    signs_of_numbers(arith::integer_form(n as u32), n, 0);
    assert(arith::is_cut(a, arith::integer_form(n as u32)));
    assert(arith::is_cut(a, r));
    numbers_of_sizes(r, single::is_negative(a), n, 0);
}

/// A number divided by itself is one.
#[verifier::rlimit(50)]
pub proof fn quotients_of_equals(x: u32)
    requires
        arith::is_finite(x),
        arith::size_of(x) != 0,
    ensures
        arith::quotient(x, x) == single::ONE_BITS,
{
    arith::quotients_exist(x, x);
    single::magnitudes_are_nonnegative();
    one();
    let s = arith::size_of(x);
    let c = pow2(149) as int;
    lemma_pow2_pos(149);
    lemma_pow2_pos(126);
    lemma2_to64();
    lemma_pow2_adds(23, 126);
    rounding::nearest_of_multiples(c, 1, s);
    rounding::nearest_of_multiples(c, pow2(126) as int, s);
    assert(s * 1 == s && s * c == c * s);
    assert(c / 1 == c);
    rounding::bit_length_is_bounded(1, 1);
    rounding::bit_length_of_shifted(1, 149);
    assert(rounding::bit_length(1) == 1) by {
        reveal_with_fuel(rounding::bit_length, 2);
    }
    assert(1 * c == c);
    assert((s * c) / s == c) by {
        lemma_div_multiples_vanish(c, s);
    }
    let u = pow2(126) as int;
    assert(c == 0x80_0000 * u);
    lemma_div_multiples_vanish(0x80_0000, u);
    lemma_mod_multiples_basic(0x80_0000, u);
    assert(rounding::nearest_even(c, u) == 0x80_0000);
    few_digits_stay(1, 149);
    arith::numbers_are_unique(arith::quotient(x, x), single::ONE_BITS, false, c);
}

/// Zero divided by a number is zero.
pub proof fn quotients_of_zero(b: u32, n: int, k: nat)
    requires
        k <= 149,
        n > 0,
        stands_for(b, n, k),
    ensures
        arith::quotient(0, b) == 0,
{
    arith::quotients_exist(0, b);
    zero(0);
    signs_of_numbers(0, 0, 0);
    signs_of_numbers(b, n, k);
    single::magnitudes_are_nonnegative();
    let d = arith::size_of(b);
    assert(0 * pow2(149) == 0);
    lemma_basic_div(0, d);
    lemma_pow2_pos(0);
    lemma2_to64();
    assert(rounding::bit_length(0) == 0);
    arith::times_one(d);
    arith::times_one(0);
    assert(0int % d == 0) by (nonlinear_arith)
        requires
            d > 0,
    ;
    assert(rounding::nearest_even(0, d) == 0);
    assert(arith::size_quotient(0, d) == 0);
    few_digits_stay(0, 0);
    arith::numbers_are_unique(arith::quotient(0, b), 0, false, 0);
}

/// Zero times a number is zero, where the number has no sign.
pub proof fn products_of_zero(b: u32)
    requires
        arith::is_finite(b),
        !single::is_negative(b),
    ensures
        arith::product(0, b) == 0,
{
    arith::products_exist(0, b);
    zero(0);
    signs_of_numbers(0, 0, 0);
    arith::products_with_zero(arith::size_of(b));
    few_digits_stay(0, 0);
    arith::times_one(0);
    arith::numbers_are_unique(arith::product(0, b), 0, false, 0);
}

/// The order of two factors does not matter.
pub proof fn products_commute(a: u32, b: u32)
    ensures
        arith::product(a, b) == arith::product(b, a),
{
    arith::products_exist(a, b);
    arith::products_exist(b, a);
    let (x, y) = (arith::size_of(a), arith::size_of(b));
    assert(x * y == y * x) by (nonlinear_arith);
    let (r, t) = (arith::product(a, b), arith::product(b, a));
    if single::is_nan(a) || single::is_nan(b) || (single::is_infinite(a) && y == 0) || (
    single::is_infinite(b) && x == 0) {
    } else {
        arith::numbers_are_unique(
            r,
            t,
            single::is_negative(a) != single::is_negative(b),
            if single::is_infinite(a) || single::is_infinite(b) {
                arith::limit()
            } else {
                arith::size_product(x, y)
            },
        );
    }
}

/// One is below the largest number.
pub(crate) proof fn ones_are_below_the_limit()
    ensures
        pow2(149) < arith::limit(),
{
    few_digits_stay(1, 149);
}

/// Cutting a fraction leaves its whole part, with its sign.
pub proof fn cuts(a: u32, m: int, k: nat)
    requires
        k <= 149,
        size(m) < 0x100_0000,
        stands_for(a, m, k),
    ensures
        stands_for(
            arith::cut(a),
            if m < 0 {
                -(size(m) / (pow2(k) as int))
            } else {
                size(m) / (pow2(k) as int)
            },
            0,
        ),
        0 <= size(m) / (pow2(k) as int) <= size(m),
{
    signs_of_numbers(a, m, k);
    lemma_pow2_pos(k);
    let (d, p, c) = (pow2(k) as int, pow2((149 - k) as nat) as int, pow2(149) as int);
    lemma_pow2_pos((149 - k) as nat);
    lemma_pow2_adds(k, (149 - k) as nat);
    let s = size(m);
    let n = s / d;
    assert(s * p / c == n) by {
        rounding::nearest_of_multiples(s, d, p);
        assert(p * s == s * p && p * d == d * p) by (nonlinear_arith);
    }
    assert(0 <= n <= s) by {
        lemma_div_pos_is_pos(s, d);
        lemma_div_nonincreasing(s, d);
    }
    few_digits_stay(n, 149);
    let negative = single::is_negative(a);
    let plain = arith::integer_form(n as u32);
    integers(n as u32);
    signs_of_numbers(plain, n, 0);
    let whole = if negative {
        single::negated(plain)
    } else {
        plain
    };
    single::negation_is_an_involution(plain);
    assert(arith::is_cut(a, whole));
    let r = arith::cut(a);
    assert(arith::is_cut(a, r));
    numbers_of_sizes(
        r,
        negative,
        if m < 0 {
            -n
        } else {
            n
        },
        0,
    );
}

} // verus!
