//! Whole-number arithmetic behind the grid: a root, a logarithm and two quotients,
//! each stated by the inequalities that single out its value.
use vstd::prelude::*;
use vstd::arithmetic::div_mod::{lemma_div_pos_is_pos, lemma_fundamental_div_mod, lemma_mod_pos_bound};
use vstd::arithmetic::power2::{lemma2_to64, lemma_pow2_adds, pow2};

verus! {

/// `s` is `r` divided by the square root of two and rounded down: the largest
/// whole number whose square, doubled, does not exceed the square of `r`.
pub open spec fn is_floor_div_sqrt2(s: int, r: int) -> bool {
    0 <= s && 2 * s * s <= r * r < 2 * (s + 1) * (s + 1)
}

/// `r` divided by the square root of two, rounded down.
pub open spec fn spec_floor_div_sqrt2(r: int) -> int {
    choose|s: int| is_floor_div_sqrt2(s, r)
}

/// `e` is the binary logarithm of `n`, rounded down.
pub open spec fn is_floor_log2(e: nat, n: int) -> bool {
    pow2(e) <= n < pow2(e + 1)
}

/// `a` divided by `b`, rounded up, for `a >= 0` and `b > 0`.
pub open spec fn spec_ceil_div(a: int, b: int) -> int {
    (a + b - 1) / b
}

/// A quotient rounded down and its divisor enclose the dividend.
pub proof fn lemma_floor_div_bounds(x: int, b: int)
    requires
        0 <= x,
        0 < b,
    ensures
        0 <= x / b,
        (x / b) * b <= x < (x / b + 1) * b,
{
    lemma_div_pos_is_pos(x, b);
    lemma_fundamental_div_mod(x, b);
    lemma_mod_pos_bound(x, b);
    assert((x / b) * b == b * (x / b)) by (nonlinear_arith);
    assert((x / b + 1) * b == b * (x / b) + b) by (nonlinear_arith);
}

/// A quotient rounded up is the least multiplier that covers the dividend.
pub proof fn lemma_ceil_div_bounds(a: int, b: int)
    requires
        0 < a,
        0 < b,
    ensures
        1 <= spec_ceil_div(a, b),
        (spec_ceil_div(a, b) - 1) * b < a <= spec_ceil_div(a, b) * b,
{
    let q = spec_ceil_div(a, b);
    lemma_floor_div_bounds(a + b - 1, b);
    assert((q - 1) * b == q * b - b) by (nonlinear_arith);
    assert((q + 1) * b == q * b + b) by (nonlinear_arith);
    assert(1 <= q) by (nonlinear_arith)
        requires
            0 < a,
            0 < b,
            a + b - 1 < q * b + b,
    ;
}

/// Only one whole number is `r` divided by the square root of two, rounded
/// down.
pub proof fn lemma_floor_div_sqrt2_unique(s1: int, s2: int, r: int)
    requires
        is_floor_div_sqrt2(s1, r),
        is_floor_div_sqrt2(s2, r),
    ensures
        s1 == s2,
        s1 == spec_floor_div_sqrt2(r),
{
    assert(s1 == s2) by (nonlinear_arith)
        requires
            0 <= s1,
            0 <= s2,
            2 * s1 * s1 <= r * r < 2 * (s1 + 1) * (s1 + 1),
            2 * s2 * s2 <= r * r < 2 * (s2 + 1) * (s2 + 1),
    {
        if s1 < s2 {
            assert((s1 + 1) * (s1 + 1) <= s2 * s2);
        }
        if s2 < s1 {
            assert((s2 + 1) * (s2 + 1) <= s1 * s1);
        }
    }
    let chosen = spec_floor_div_sqrt2(r);
    assert(is_floor_div_sqrt2(chosen, r));
    assert(s1 == chosen) by (nonlinear_arith)
        requires
            0 <= s1,
            0 <= chosen,
            2 * s1 * s1 <= r * r < 2 * (s1 + 1) * (s1 + 1),
            2 * chosen * chosen <= r * r < 2 * (chosen + 1) * (chosen + 1),
    {
        if s1 < chosen {
            assert((s1 + 1) * (s1 + 1) <= chosen * chosen);
        }
        if chosen < s1 {
            assert((chosen + 1) * (chosen + 1) <= s1 * s1);
        }
    }
}

/// No square of a positive whole number is twice a square: the square root of
/// two is irrational.
pub proof fn lemma_square_is_not_twice_a_square(r: nat, s: nat)
    requires
        r >= 1,
    ensures
        r * r != 2 * s * s,
    decreases r,
{
    if r * r == 2 * s * s {
        let t = r / 2;
        assert(r % 2 == 0) by (nonlinear_arith)
            requires
                r * r == 2 * s * s,
                r == 2 * t + r % 2,
                0 <= r % 2 < 2,
        {
            if r % 2 == 1 {
                assert(r * r == 2 * (2 * t * t + 2 * t) + 1);
                assert(2 * s * s == 2 * (s * s));
            }
        }
        assert(s * s == 2 * t * t) by (nonlinear_arith)
            requires
                r == 2 * t,
                r * r == 2 * s * s,
        ;
        assert(s >= 1) by (nonlinear_arith)
            requires
                r >= 1,
                r * r == 2 * s * s,
        ;
        assert(s < r) by (nonlinear_arith)
            requires
                s >= 1,
                r * r == 2 * s * s,
        ;
        lemma_square_is_not_twice_a_square(s, t);
    }
}

/// `r` divided by the square root of two, rounded down.
pub fn floor_div_sqrt2(r: u32) -> (s: u32)
    ensures
        is_floor_div_sqrt2(s as int, r as int),
        s == spec_floor_div_sqrt2(r as int),
{
    assert(r * r <= 0xffff_ffff_0000_0000) by (nonlinear_arith)
        requires
            0 <= r <= 0xffff_ffff,
    ;
    let target: u128 = (r as u128) * (r as u128);
    let mut lo: u64 = 0;
    let mut hi: u64 = r as u64 + 1;
    assert(r * r < 2 * (r + 1) * (r + 1)) by (nonlinear_arith);
    while hi - lo > 1
        invariant
            lo < hi <= r + 1,
            2 * lo * lo <= r * r,
            r * r < 2 * hi * hi,
            target == r * r,
        decreases hi - lo,
    {
        let mid: u64 = lo + (hi - lo) / 2;
        assert(2 * mid * mid <= 0x2_0000_0000_0000_0000) by (nonlinear_arith)
            requires
                0 <= mid <= 0x1_0000_0000,
        ;
        let doubled: u128 = 2 * (mid as u128) * (mid as u128);
        if doubled <= target {
            lo = mid;
        } else {
            hi = mid;
        }
    }
    proof {
        lemma_floor_div_sqrt2_unique(lo as int, lo as int, r as int);
    }
    lo as u32
}

/// The binary logarithm of `n`, rounded down.
pub fn floor_log2(n: u64) -> (e: u32)
    requires
        n >= 1,
    ensures
        is_floor_log2(e as nat, n as int),
{
    let mut e: u32 = 0;
    let mut p: u64 = 1;
    proof {
        lemma2_to64();
    }
    while p <= n / 2
        invariant
            p == pow2(e as nat),
            1 <= p <= n,
            e <= 63,
        decreases n - p,
    {
        proof {
            lemma2_to64();
            lemma_pow2_adds(e as nat, 1);
        }
        p = p * 2;
        e = e + 1;
    }
    proof {
        lemma2_to64();
        lemma_pow2_adds(e as nat, 1);
    }
    e
}

/// `a` divided by `b`, rounded up.
pub fn ceil_div(a: u64, b: u64) -> (q: u64)
    requires
        b >= 1,
        a + b <= u64::MAX,
    ensures
        q == spec_ceil_div(a as int, b as int),
{
    (a + b - 1) / b
}

} // verus!
