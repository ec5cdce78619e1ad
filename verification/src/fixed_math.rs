//! Integer helpers shared by the fixed-point motion pipeline.
use vstd::prelude::*;
use vstd::arithmetic::power2::{pow2, lemma_pow2_adds, lemma2_to64, lemma_pow2_strictly_increases};
use vstd::bits::{lemma_u64_shl_is_mul, lemma_u64_shr_is_div};
use vstd::std_specs::bits::{u64_leading_zeros, axiom_u64_leading_zeros};

verus! {

/// `r` is the integer square root of `v`: the largest natural number whose square is at most `v`.
pub open spec fn is_isqrt(v: int, r: int) -> bool {
    0 <= r && r * r <= v && v < (r + 1) * (r + 1)
}

/// The integer square root of `v` (for `v >= 0`).
pub open spec fn isqrt(v: int) -> int {
    choose|r: int| is_isqrt(v, r)
}

/// Division that truncates toward zero, as Rust's `/` does on signed integers (for `d > 0`).
pub open spec fn tdiv(n: int, d: int) -> int {
    if n >= 0 { n / d } else { -((-n) / d) }
}

/// `v` clamped into the range of `i16`.
pub open spec fn clamp_i16_spec(v: int) -> int {
    if v < i16::MIN { i16::MIN as int } else if v > i16::MAX { i16::MAX as int } else { v }
}

/// `v` clamped into the range of `i32` (saturating arithmetic).
pub open spec fn clamp_i32_spec(v: int) -> int {
    if v < i32::MIN { i32::MIN as int } else if v > i32::MAX { i32::MAX as int } else { v }
}

pub open spec fn abs(v: int) -> int {
    if v < 0 { -v } else { v }
}

/// The integer square root is unique.
pub proof fn lemma_isqrt_unique(v: int, r1: int, r2: int)
    requires
        is_isqrt(v, r1),
        is_isqrt(v, r2),
    ensures
        r1 == r2,
{
    if r1 < r2 {
        assert((r1 + 1) * (r1 + 1) <= r2 * r2) by (nonlinear_arith)
            requires 0 <= r1 < r2;
    } else if r2 < r1 {
        assert((r2 + 1) * (r2 + 1) <= r1 * r1) by (nonlinear_arith)
            requires 0 <= r2 < r1;
    }
}

/// Every non-negative integer has an integer square root.
pub proof fn lemma_isqrt_exists(v: int)
    requires
        v >= 0,
    ensures
        is_isqrt(v, isqrt(v)),
    decreases v,
{
    if v == 0 {
        assert(is_isqrt(0, 0));
    } else {
        lemma_isqrt_exists(v - 1);
        let r = isqrt(v - 1);
        if (r + 1) * (r + 1) <= v {
            assert(v < (r + 2) * (r + 2)) by (nonlinear_arith)
                requires v - 1 < (r + 1) * (r + 1), 0 <= r;
            assert(is_isqrt(v, r + 1));
        } else {
            assert(is_isqrt(v, r));
        }
    }
}

/// Once `r` is shown to be the integer square root of `v`, it is `isqrt(v)`.
pub proof fn lemma_isqrt_is(v: int, r: int)
    requires
        is_isqrt(v, r),
    ensures
        isqrt(v) == r,
{
    lemma_isqrt_exists(v);
    lemma_isqrt_unique(v, r, isqrt(v));
}

/// The integer square root is monotone.
pub proof fn lemma_isqrt_monotone(a: int, b: int)
    requires
        0 <= a <= b,
    ensures
        0 <= isqrt(a) <= isqrt(b),
{
    lemma_isqrt_exists(a);
    lemma_isqrt_exists(b);
    let ra = isqrt(a);
    let rb = isqrt(b);
    if ra > rb {
        assert((rb + 1) * (rb + 1) <= ra * ra) by (nonlinear_arith)
            requires 0 <= rb < ra;
    }
}

proof fn lemma_newton_step(v: int, x: int, q: int, n: int)
    requires
        x > 0,
        v >= 0,
        q == v / x,
        n == (x + q) / 2,
    ensures
        v < (n + 1) * (n + 1),
{
    let m = n + 1;
    assert(v < x * (q + 1)) by (nonlinear_arith)
        requires x > 0, v >= 0, q == v / x;
    assert(x + q + 1 <= 2 * m);
    if m * m <= v {
        assert(x * (q + 1) <= x * (2 * m - x)) by (nonlinear_arith)
            requires x > 0, q + 1 <= 2 * m - x;
        assert((x - m) * (x - m) + (v - m * m) < 0) by (nonlinear_arith)
            requires v < x * (2 * m - x);
        assert(false) by (nonlinear_arith)
            requires (x - m) * (x - m) + (v - m * m) < 0, m * m <= v;
    }
}

proof fn lemma_leading_zeros_bound(value: u64)
    requires
        value > 0,
    ensures
        1 <= 64 - u64_leading_zeros(value) <= 64,
        value < pow2((64 - u64_leading_zeros(value)) as nat),
{
    axiom_u64_leading_zeros(value);
    let b = 64 - u64_leading_zeros(value);
    lemma2_to64();
    if b < 64 {
        lemma_u64_shr_is_div(value, b as u64);
        vstd::arithmetic::power2::lemma_pow2_pos(b as nat);
        assert(value as nat / pow2(b as nat) == 0);
        vstd::arithmetic::div_mod::lemma_div_is_ordered_by_denominator(0, 1, 1);
        assert(value < pow2(b as nat)) by (nonlinear_arith)
            requires value as nat / pow2(b as nat) == 0, pow2(b as nat) > 0;
    } else {
        assert(pow2(64) == 0x1_0000_0000_0000_0000) by {
            lemma2_to64();
        }
    }
}

/// Integer square root by Newton iteration from a power-of-two starting point.
pub fn integer_sqrt(value: u64) -> (r: u64)
    ensures
        r as int == isqrt(value as int),
        r <= 0x1_0000_0000,
{
    if value == 0 {
        proof { lemma_isqrt_is(0, 0); }
        return 0;
    }
    let bit_length = 64 - value.leading_zeros();
    let shift = (bit_length + 1) / 2;
    proof {
        lemma_leading_zeros_bound(value);
        lemma2_to64();
        lemma_u64_shl_is_mul(1, shift as u64);
    }
    let mut estimate = 1_u64 << shift;
    proof {
        let s = shift as nat;
        let b = bit_length as nat;
        assert(estimate == pow2(s));
        lemma_pow2_adds(s, s);
        if b < 2 * s {
            lemma_pow2_strictly_increases(b, 2 * s);
        }
        assert(pow2(b) <= pow2(2 * s));
        if s < 32 {
            lemma_pow2_strictly_increases(s, 32);
        }
        assert(estimate <= 0x1_0000_0000);
        assert(value < estimate * estimate);
        assert(estimate * estimate < (estimate + 1) * (estimate + 1)) by (nonlinear_arith)
            requires estimate > 0;
    }
    loop
        invariant
            value > 0,
            estimate > 0,
            estimate <= 0x1_0000_0000,
            value < (estimate + 1) * (estimate + 1),
        decreases estimate,
    {
        let quotient = value / estimate;
        proof {
            assert(quotient <= estimate + 2) by (nonlinear_arith)
                requires
                    estimate > 0,
                    value < (estimate + 1) * (estimate + 1),
                    quotient == value / estimate,
            ;
        }
        let next = (estimate + quotient) / 2;
        proof { lemma_newton_step(value as int, estimate as int, quotient as int, next as int); }
        if next >= estimate {
            proof {
                assert(estimate * estimate <= value) by (nonlinear_arith)
                    requires
                        estimate > 0,
                        quotient == value / estimate,
                        quotient >= estimate,
                ;
                lemma_isqrt_is(value as int, estimate as int);
            }
            return estimate;
        }
        estimate = next;
    }
}

/// Clamps into the `i16` range.
pub fn clamp_i16(value: i64) -> (r: i16)
    ensures
        r as int == clamp_i16_spec(value as int),
{
    if value < i16::MIN as i64 {
        i16::MIN
    } else if value > i16::MAX as i64 {
        i16::MAX
    } else {
        value as i16
    }
}

} // verus!
