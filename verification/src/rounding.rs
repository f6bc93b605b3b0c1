//! Rounding of integers to 24 binary digits, as many as single precision has.
use vstd::prelude::*;
use vstd::arithmetic::power2::*;

verus! {

/// Number of binary digits of a number.
pub open spec fn bit_length(x: int) -> int
    decreases x,
{
    if x <= 0 {
        0
    } else {
        1 + bit_length(x / 2)
    }
}

/// The integer nearest to `a / b`, the even one of two.
pub open spec fn nearest_even(a: int, b: int) -> int {
    let q = a / b;
    let r = a % b;
    if 2 * r < b || (2 * r == b && q % 2 == 0) {
        q
    } else {
        q + 1
    }
}

/// A number rounded to 24 binary digits.
pub open spec fn to_24_bits(x: int) -> int {
    let excess = bit_length(x) - 24;
    if excess <= 0 {
        x
    } else {
        nearest_even(x, pow2(excess as nat) as int) * pow2(excess as nat)
    }
}

proof fn pow2_values()
    ensures
        pow2(23) == 0x80_0000,
        pow2(24) == 0x100_0000,
        pow2(32) == 0x1_0000_0000,
        pow2(56) == 0x100_0000_0000_0000,
        pow2(57) == 0x200_0000_0000_0000,
        pow2(126) == 0x4000_0000_0000_0000_0000_0000_0000_0000,
        pow2(128) == 0x1_0000_0000_0000_0000_0000_0000_0000_0000,
{
    lemma2_to64();
    lemma2_to64_rest();
    lemma_pow2_adds(64, 62);
    lemma_pow2_adds(64, 64);
}

/// Powers of two with an exponent of at most 126.
pub(crate) fn power_of_two(t: u32) -> (r: u128)
    requires
        t <= 126,
    ensures
        r == pow2(t as nat),
        1 <= r <= 0x4000_0000_0000_0000_0000_0000_0000_0000,
{
    let mut r: u128 = 1;
    let mut i: u32 = 0;
    proof {
        lemma2_to64();
        pow2_values();
    }
    while i < t
        invariant
            i <= t <= 126,
            r == pow2(i as nat),
            1 <= r,
            pow2(126) == 0x4000_0000_0000_0000_0000_0000_0000_0000,
        decreases t - i,
    {
        proof {
            lemma_pow2_unfold((i + 1) as nat);
            if i + 1 < 126 {
                lemma_pow2_strictly_increases((i + 1) as nat, 126);
            }
        }
        r = 2 * r;
        i += 1;
    }
    proof {
        if t < 126 {
            lemma_pow2_strictly_increases(t as nat, 126);
        }
    }
    r
}

pub(crate) proof fn bit_length_is_bounded(x: int, n: nat)
    requires
        x < pow2(n),
    ensures
        0 <= bit_length(x) <= n,
    decreases n,
{
    if x > 0 {
        lemma2_to64();
        if n == 0 {
        } else {
            lemma_pow2_unfold(n);
            bit_length_is_bounded(x / 2, (n - 1) as nat);
        }
    }
}

/// Counts the binary digits of a number.
pub(crate) fn count_bits(x: u128) -> (r: u32)
    ensures
        r == bit_length(x as int),
        r <= 128,
{
    let mut rest: u128 = x;
    let mut n: u32 = 0;
    proof {
        pow2_values();
        bit_length_is_bounded(x as int, 128);
    }
    while rest > 0
        invariant
            n + bit_length(rest as int) == bit_length(x as int),
            bit_length(x as int) <= 128,
            0 <= bit_length(rest as int),
        decreases rest,
    {
        proof {
            bit_lengths_are_nonnegative(rest as int / 2);
        }
        rest = rest / 2;
        n += 1;
    }
    n
}

proof fn bit_lengths_are_nonnegative(x: int)
    ensures
        0 <= bit_length(x),
    decreases x,
{
    if x > 0 {
        bit_lengths_are_nonnegative(x / 2);
    }
}

/// Divides and rounds to the nearest integer, to the even one of two.
pub(crate) fn round_quotient(a: u128, b: u128) -> (r: u128)
    requires
        0 < b < 0x8000_0000_0000_0000_0000_0000_0000_0000,
        a < 0x8000_0000_0000_0000_0000_0000_0000_0000,
    ensures
        r == nearest_even(a as int, b as int),
        r <= a as int / b as int + 1,
{
    let q: u128 = a / b;
    let r: u128 = a % b;
    if 2 * r < b || (2 * r == b && q % 2 == 0) {
        q
    } else {
        assert(q <= a) by (nonlinear_arith)
            requires
                q == a / b,
                b > 0,
        ;
        q + 1
    }
}

pub(crate) proof fn bit_lengths_bound(x: int)
    requires
        0 <= x,
    ensures
        0 <= bit_length(x),
        x < pow2(bit_length(x) as nat),
        x > 0 ==> bit_length(x) > 0 && pow2((bit_length(x) - 1) as nat) <= x,
    decreases x,
{
    lemma2_to64();
    if x > 0 {
        bit_lengths_bound(x / 2);
        lemma_pow2_unfold(bit_length(x) as nat);
        if x / 2 > 0 {
            lemma_pow2_unfold((bit_length(x) - 1) as nat);
        }
    }
}

/// A common factor does not change the nearest integer to a quotient.
pub(crate) proof fn nearest_of_multiples(a: int, b: int, c: int)
    requires
        0 <= a,
        0 < b,
        0 < c,
    ensures
        nearest_even(c * a, c * b) == nearest_even(a, b),
        (c * a) / (c * b) == a / b,
        c * b > 0,
{
    vstd::arithmetic::div_mod::lemma_div_multiples_vanish_quotient(c, a, b);
    vstd::arithmetic::div_mod::lemma_truncate_middle(a, c, b);
    let r = a % b;
    assert((2 * r < b <==> 2 * (c * r) < c * b) && (2 * r == b <==> 2 * (c * r) == c * b))
        by (nonlinear_arith)
        requires
            0 < c,
    ;
}

pub(crate) proof fn bit_length_of_shifted(x: int, s: nat)
    requires
        0 < x,
    ensures
        bit_length(x * pow2(s)) == bit_length(x) + s,
    decreases s,
{
    if s == 0 {
        lemma2_to64();
    } else {
        bit_length_of_shifted(x, (s - 1) as nat);
        lemma_pow2_unfold(s);
        lemma_pow2_pos((s - 1) as nat);
        let y = x * pow2((s - 1) as nat);
        assert(y > 0) by (nonlinear_arith)
            requires
                x > 0,
                pow2((s - 1) as nat) > 0,
                y == x * pow2((s - 1) as nat),
        ;
        assert(x * (2 * pow2((s - 1) as nat)) == 2 * y) by (nonlinear_arith)
            requires
                y == x * pow2((s - 1) as nat),
        ;
        assert((2 * y) / 2 == y);
    }
}

/// Rounding does not depend on the unit, if units differ by a power of two.
pub(crate) proof fn rounding_of_shifted(x: int, s: nat)
    requires
        0 <= x,
    ensures
        to_24_bits(x * pow2(s)) == to_24_bits(x) * pow2(s),
{
    let c = pow2(s) as int;
    lemma_pow2_pos(s);
    if x > 0 {
        bit_length_of_shifted(x, s);
        let e = bit_length(x) - 24;
        if e > 0 {
            let d = pow2(e as nat) as int;
            lemma_pow2_pos(e as nat);
            lemma_pow2_adds(s, e as nat);
            nearest_of_multiples(x, d, c);
            assert(x * c == c * x) by (nonlinear_arith);
            let m = nearest_even(x, d);
            assert(m * (c * d) == m * d * c) by (nonlinear_arith);
        } else if e + s > 0 {
            let t = (e + s) as nat;
            let d = pow2(t) as int;
            lemma_pow2_pos(t);
            lemma_pow2_adds((s - t) as nat, t);
            let m = x * pow2((s - t) as nat);
            assert(x * (pow2((s - t) as nat) * d) == d * m) by (nonlinear_arith)
                requires
                    m == x * pow2((s - t) as nat),
            ;
            vstd::arithmetic::div_mod::lemma_div_multiples_vanish(m, d);
            vstd::arithmetic::div_mod::lemma_mod_multiples_basic(m, d);
            assert(m * d == d * m) by (nonlinear_arith);
            assert(nearest_even(d * m, d) == m);
        }
    } else {
        assert(x * c == 0) by (nonlinear_arith)
            requires
                x == 0,
        ;
    }
}

} // verus!
