//! Integer helpers shared by all planners.

use vstd::prelude::*;

verus! {

/// The smallest integer that is not less than `a / b`.
pub open spec fn ceil_div(a: int, b: int) -> int {
    (a + b - 1) / b
}

/// The number of times `n` can be halved before it is at most one; zero for zero.
pub open spec fn log2(n: nat) -> nat
    decreases n,
{
    if n <= 1 {
        0
    } else {
        1 + log2(n / 2)
    }
}

/// The larger of two numbers.
pub open spec fn max_of(a: int, b: int) -> int {
    if a >= b {
        a
    } else {
        b
    }
}

/// The smaller of two numbers.
pub open spec fn min_of(a: int, b: int) -> int {
    if a <= b {
        a
    } else {
        b
    }
}

/// A positive number lies between two consecutive powers of two, which its logarithm picks out.
pub proof fn log2_bounds(n: nat)
    requires
        n >= 1,
    ensures
        vstd::arithmetic::power2::pow2(log2(n)) <= n < vstd::arithmetic::power2::pow2(log2(n) + 1),
    decreases n,
{
    vstd::arithmetic::power2::lemma_pow2_unfold(log2(n) + 1);
    if n >= 2 {
        log2_bounds(n / 2);
        vstd::arithmetic::power2::lemma_pow2_unfold(log2(n));
    } else {
        vstd::arithmetic::power2::lemma2_to64();
    }
}

/// The logarithm of a larger number is at least as large.
pub proof fn log2_monotonic(a: nat, b: nat)
    requires
        a <= b,
    ensures
        log2(a) <= log2(b),
    decreases b,
{
    if a >= 2 {
        log2_monotonic(a / 2, b / 2);
    }
}

/// The quotient rounded up is the least count of groups of `b` that hold `a` items.
pub proof fn ceil_div_least(a: int, b: int)
    requires
        a >= 0,
        b > 0,
    ensures
        ceil_div(a, b) >= 0,
        ceil_div(a, b) * b >= a,
        (ceil_div(a, b) - 1) * b < a,
        a > 0 ==> ceil_div(a, b) >= 1,
        ceil_div(a, b) <= a,
        ceil_div(a, b) == (if a % b == 0 { a / b } else { a / b + 1 }),
{
    let q = (a + b - 1) / b;
    vstd::arithmetic::div_mod::lemma_fundamental_div_mod(a + b - 1, b);
    vstd::arithmetic::div_mod::lemma_fundamental_div_mod(a, b);
    vstd::arithmetic::div_mod::lemma_mod_bound(a + b - 1, b);
    vstd::arithmetic::div_mod::lemma_mod_bound(a, b);
    let r = (a + b - 1) % b;
    assert(b * q == a + b - 1 - r);
    assert((q - 1) * b == b * q - b) by (nonlinear_arith);
    assert(q * b == b * q) by (nonlinear_arith);
    assert(q >= 0) by (nonlinear_arith)
        requires
            b * q > -b,
            b > 0,
    ;
    assert(a > 0 ==> q >= 1) by (nonlinear_arith)
        requires
            q * b >= a,
            b > 0,
    ;
    assert(q <= a) by (nonlinear_arith)
        requires
            (q - 1) * b < a,
            b > 0,
            a >= 0,
    ;
    let p = a / b;
    let s = a % b;
    assert(a == b * p + s);
    if s == 0 {
        assert(q == p) by (nonlinear_arith)
            requires
                a == b * p,
                b * q >= a,
                b * q < a + b,
                b > 0,
        ;
    } else {
        assert(q == p + 1) by (nonlinear_arith)
            requires
                a == b * p + s,
                0 < s < b,
                b * q >= a,
                b * q < a + b,
                b > 0,
        ;
    }
}

/// Divide and ceil to the next value.
pub fn div_ceil(a: usize, b: usize) -> (r: usize)
    requires
        b > 0,
    ensures
        r == ceil_div(a as int, b as int),
{
    proof {
        ceil_div_least(a as int, b as int);
    }
    if a % b == 0 {
        a / b
    } else {
        (a / b) + 1
    }
}

/// The integer part of the base two logarithm. Zero maps to zero.
pub fn floor_log2(n: usize) -> (r: usize)
    ensures
        r == log2(n as nat),
        r < 64,
{
    let mut m: usize = n;
    let mut r: usize = 0;
    assert(vstd::arithmetic::power2::pow2(0) == 1 && vstd::arithmetic::power2::pow2(64)
        == 0x1_0000_0000_0000_0000) by {
        vstd::arithmetic::power2::lemma2_to64();
        vstd::arithmetic::power2::lemma2_to64_rest();
    }
    while m > 1
        invariant
            r + log2(m as nat) == log2(n as nat),
            m >= 1 ==> m * vstd::arithmetic::power2::pow2(r as nat) <= n,
            r <= 64,
            vstd::arithmetic::power2::pow2(64) == 0x1_0000_0000_0000_0000,
        decreases m,
    {
        proof {
            let ghost p = vstd::arithmetic::power2::pow2(r as nat) as int;
            vstd::arithmetic::power2::lemma_pow2_unfold((r + 1) as nat);
            vstd::arithmetic::power2::lemma_pow2_pos(r as nat);
            if r == 64 {
                assert(m * p >= 0x1_0000_0000_0000_0000) by (nonlinear_arith)
                    requires
                        m >= 1,
                        p == 0x1_0000_0000_0000_0000,
                ;
            }
            assert((m / 2) * (2 * p) <= m * p) by (nonlinear_arith)
                requires
                    p > 0,
                    m >= 0,
            ;
        }
        m = m / 2;
        r = r + 1;
    }
    proof {
        if n >= 1 {
            log2_bounds(n as nat);
            if r >= 64 {
                if r > 64 {
                    vstd::arithmetic::power2::lemma_pow2_strictly_increases(64, r as nat);
                }
            }
        }
    }
    r
}

/// Two to the power of `k`.
pub fn pow2_usize(k: usize) -> (r: usize)
    requires
        k < 32,
    ensures
        r == vstd::arithmetic::power2::pow2(k as nat),
{
    proof {
        vstd::arithmetic::power2::lemma2_to64();
        if k < 31 {
            vstd::arithmetic::power2::lemma_pow2_strictly_increases(k as nat, 31);
        }
        vstd::bits::lemma_usize_shl_is_mul(1usize, k);
    }
    1usize << k
}

} // verus!
