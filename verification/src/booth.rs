//! Scalars as signed digits.
//!
//! Windows hold digits between `-2^(w-1)` and `2^(w-1)` instead of digits below `2^w`, which halves
//! the number of buckets. A digit that is too large borrows from the window above it.

use vstd::prelude::*;

verus! {

/// The bits of a scalar in window `k`.
pub open spec fn window_bits(v: nat, w: nat, k: nat) -> nat {
    (v / vstd::arithmetic::power2::pow2(k * w)) % vstd::arithmetic::power2::pow2(w)
}

/// The carry into window `k`.
pub open spec fn carry_into(v: nat, w: nat, k: nat) -> nat
    decreases k,
{
    if k == 0 {
        0
    } else if window_bits(v, w, (k - 1) as nat) + carry_into(v, w, (k - 1) as nat)
        > vstd::arithmetic::power2::pow2((w - 1) as nat) {
        1
    } else {
        0
    }
}

/// The signed digit of window `k`.
pub open spec fn signed_digit(v: nat, w: nat, k: nat) -> int {
    window_bits(v, w, k) + carry_into(v, w, k) - carry_into(v, w, k + 1)
        * vstd::arithmetic::power2::pow2(w)
}

/// The signed digits of a scalar, as the digits of every term.
pub open spec fn signed_digits(v: nat, w: nat) -> spec_fn(int, int) -> int {
    |j: int, k: int| signed_digit(v, w, k as nat)
}

/// A signed digit is at most half as large as a window.
pub proof fn digit_bounds(v: nat, w: nat, k: nat)
    requires
        w >= 1,
    ensures
        -vstd::arithmetic::power2::pow2((w - 1) as nat) <= signed_digit(v, w, k)
            <= vstd::arithmetic::power2::pow2((w - 1) as nat),
{
    let half = vstd::arithmetic::power2::pow2((w - 1) as nat) as int;
    let size = vstd::arithmetic::power2::pow2(w) as int;
    vstd::arithmetic::power2::lemma_pow2_unfold(w);
    vstd::arithmetic::power2::lemma_pow2_pos(w);
    vstd::arithmetic::div_mod::lemma_mod_bound(
        (v / vstd::arithmetic::power2::pow2(k * w)) as int,
        size,
    );
    let c = carry_into(v, w, k + 1) as int;
    if c == 1 {
        assert(c * size == size) by (nonlinear_arith)
            requires
                c == 1,
        ;
    } else {
        assert(c * size == 0) by (nonlinear_arith)
            requires
                c == 0,
        ;
    }
}

/// The digits of the first windows and the carry out of them are worth what the bits of these
/// windows are.
proof fn digits_and_carry(v: nat, w: nat, n: nat)
    requires
        w >= 1,
    ensures
        crate::single_multiexp::digits_number(signed_digits(v, w), 0, w, n) + carry_into(v, w, n)
            * vstd::arithmetic::power2::pow2(n * w) == v % vstd::arithmetic::power2::pow2(n * w),
    decreases n,
{
    if n == 0 {
        vstd::arithmetic::power2::lemma2_to64();
        assert(n * w == 0) by (nonlinear_arith)
            requires
                n == 0,
        ;
        assert(v % 1 == 0);
    } else {
        let m = (n - 1) as nat;
        digits_and_carry(v, w, m);
        let low = vstd::arithmetic::power2::pow2(m * w) as int;
        let size = vstd::arithmetic::power2::pow2(w) as int;
        let top = vstd::arithmetic::power2::pow2(n * w) as int;
        vstd::arithmetic::power2::lemma_pow2_pos(m * w);
        vstd::arithmetic::power2::lemma_pow2_pos(w);
        vstd::arithmetic::power2::lemma_pow2_adds(m * w, w);
        assert(m * w + w == n * w) by (nonlinear_arith)
            requires
                n == m + 1,
        ;
        assert((n - 1) * w == m * w);
        vstd::arithmetic::div_mod::lemma_mod_breakdown(v as int, low, size);
        let b = window_bits(v, w, m) as int;
        let c = carry_into(v, w, m) as int;
        let d = carry_into(v, w, n) as int;
        let digit = signed_digit(v, w, m);
        assert(digit == b + c - d * size);
        assert(digit * low + d * top == b * low + c * low) by (nonlinear_arith)
            requires
                digit == b + c - d * size,
                top == low * size,
        ;
        assert(low * b == b * low) by (nonlinear_arith);
        let before = crate::single_multiexp::digits_number(signed_digits(v, w), 0, w, m);
        assert(signed_digits(v, w)(0, n - 1) == digit);
        assert(crate::single_multiexp::digits_number(signed_digits(v, w), 0, w, n) == before + digit
            * low);
    }
}

/// Scalars of a number of bits can be written with signed digits in the windows that there are for
/// that many bits. Nothing is carried out of the last window, because the windows have room for one
/// more bit than the scalars have.
pub proof fn signed_digits_fit(v: nat, effective_bits: nat, w: nat)
    requires
        w >= 1,
        v < vstd::arithmetic::power2::pow2(effective_bits),
    ensures
        ({
            let n = crate::multiexp::num_windows_for(effective_bits, w);
            &&& carry_into(v, w, n) == 0
            &&& crate::single_multiexp::digits_number(signed_digits(v, w), 0, w, n) == v
            &&& forall|k: nat|
                -vstd::arithmetic::power2::pow2((w - 1) as nat) <= #[trigger] signed_digit(v, w, k)
                    <= vstd::arithmetic::power2::pow2((w - 1) as nat)
        }),
{
    let n = crate::multiexp::num_windows_for(effective_bits, w);
    crate::multiexp::windows_cover_bits(effective_bits, w);
    let m = (n - 1) as nat;
    let low = vstd::arithmetic::power2::pow2(m * w) as int;
    let half = vstd::arithmetic::power2::pow2((w - 1) as nat) as int;
    let all = vstd::arithmetic::power2::pow2(n * w) as int;
    vstd::arithmetic::power2::lemma_pow2_pos(m * w);
    vstd::arithmetic::power2::lemma_pow2_pos(w);
    vstd::arithmetic::power2::lemma_pow2_unfold(w);
    assert(m * w + w == n * w) by (nonlinear_arith)
        requires
            n == m + 1,
    ;
    vstd::arithmetic::power2::lemma_pow2_adds(m * w, (w - 1) as nat);
    vstd::arithmetic::power2::lemma_pow2_adds(m * w, w);
    let bound = (n * w - 1) as nat;
    assert(m * w + (w - 1) == bound);
    if effective_bits < bound {
        vstd::arithmetic::power2::lemma_pow2_strictly_increases(effective_bits, bound);
    }
    assert(v < low * half);
    let q = v as int / low;
    vstd::arithmetic::div_mod::lemma_fundamental_div_mod(v as int, low);
    vstd::arithmetic::div_mod::lemma_mod_bound(v as int, low);
    let vi = v as int;
    assert(0 <= q < half) by (nonlinear_arith)
        requires
            low * q <= vi,
            vi < low * q + low,
            vi < low * half,
            vi >= 0,
            low > 0,
    ;
    vstd::arithmetic::div_mod::lemma_small_mod(q as nat, vstd::arithmetic::power2::pow2(w));
    assert(window_bits(v, w, m) == q);
    assert(carry_into(v, w, m) <= 1);
    assert(carry_into(v, w, n) == 0);
    digits_and_carry(v, w, n);
    assert(low * half <= all) by (nonlinear_arith)
        requires
            all == low * (2 * half),
            low > 0,
            half >= 0,
    ;
    vstd::arithmetic::div_mod::lemma_small_mod(v, all as nat);
    assert(carry_into(v, w, n) * all == 0) by (nonlinear_arith)
        requires
            carry_into(v, w, n) == 0,
    ;
    assert forall|k: nat|
        -vstd::arithmetic::power2::pow2((w - 1) as nat) <= #[trigger] signed_digit(v, w, k)
            <= vstd::arithmetic::power2::pow2((w - 1) as nat) by {
        digit_bounds(v, w, k);
    }
}

} // verus!
