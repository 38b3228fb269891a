//! What interpolation, evaluation and combination of polynomials are.

use vstd::prelude::*;

verus! {

/// Interpolation goes along a straight line: two steps from the lower end lead as far as both of them
/// together. With the two ends, which [`crate::reference::interpolation_ends`] gives, this says what
/// interpolation is at every number.
pub proof fn interpolation_is_straight(r: int, s: int, low: int, high: int, p: int)
    requires
        p > 0,
    ensures
        (crate::reference::interpolate(r, low, high, p) + crate::reference::interpolate(
            s,
            low,
            high,
            p,
        )) % p == (crate::reference::interpolate(r + s, low, high, p) + low) % p,
{
    let d = high - low;
    let a = r * d + low;
    let b = s * d + low;
    let c = (r + s) * d + low;
    assert(a + b == c + low) by (nonlinear_arith)
        requires
            a == r * d + low,
            b == s * d + low,
            c == (r + s) * d + low,
    ;
    vstd::arithmetic::div_mod::lemma_add_mod_noop(a, b, p);
    vstd::arithmetic::div_mod::lemma_add_mod_noop(c, low, p);
    vstd::arithmetic::div_mod::lemma_add_mod_noop(a % p, b % p, p);
    vstd::arithmetic::div_mod::lemma_add_mod_noop(c % p, low, p);
    vstd::arithmetic::div_mod::lemma_mod_twice(a, p);
    vstd::arithmetic::div_mod::lemma_mod_twice(b, p);
    vstd::arithmetic::div_mod::lemma_mod_twice(c, p);
}

/// The sum of the first `k` coefficients times the powers of `x`.
pub open spec fn power_sum(f: Seq<int>, x: int, k: nat) -> int
    decreases k,
{
    if k == 0 {
        0
    } else {
        power_sum(f, x, (k - 1) as nat) + f[k - 1] * vstd::arithmetic::power::pow(
            x,
            (k - 1) as nat,
        )
    }
}

/// The value of a polynomial is the sum of its coefficients times the powers of the point.
pub proof fn value_is_power_sum(f: Seq<int>, x: int)
    ensures
        crate::reference::eval(f, x) == power_sum(f, x, f.len()),
{
    prefix_is_power_sum(f, x, f.len());
    assert(f.take(f.len() as int) =~= f);
}

proof fn prefix_is_power_sum(f: Seq<int>, x: int, k: nat)
    requires
        k <= f.len(),
    ensures
        crate::reference::eval(f.take(k as int), x) == power_sum(f, x, k),
    decreases k,
{
    if k > 0 {
        let i = (k - 1) as nat;
        prefix_is_power_sum(f, x, i);
        let last = seq![f[k - 1]];
        assert(f.take(k as int) =~= f.take(i as int) + last);
        crate::witness::eval_concat(f.take(i as int), last, x);
        assert(last.drop_first() =~= Seq::empty());
        assert(crate::reference::eval(last.drop_first(), x) == 0);
        assert(x * 0 == 0);
        assert(crate::reference::eval(last, x) == f[k - 1]);
        let p = vstd::arithmetic::power::pow(x, i);
        let c = f[k - 1];
        assert(p * c == c * p) by (nonlinear_arith);
    }
}

/// Sums of coefficients.
pub open spec fn coeff_sums(a: Seq<int>, b: Seq<int>) -> Seq<int> {
    Seq::new(a.len(), |k: int| a[k] + b[k])
}

/// Coefficients of which one is one and all others are zero.
pub open spec fn one_at(t: int, n: nat) -> Seq<int> {
    Seq::new(
        n,
        |k: int|
            if k == t {
                1
            } else {
                0
            },
    )
}

/// Linear combinations are linear in the coefficients.
pub proof fn combination_is_linear(
    polys: Seq<Seq<int>>,
    a: Seq<int>,
    b: Seq<int>,
    i: int,
    m: nat,
)
    requires
        m <= a.len(),
        a.len() == b.len(),
    ensures
        crate::reference::combination(polys, coeff_sums(a, b), i, m)
            == crate::reference::combination(polys, a, i, m) + crate::reference::combination(
            polys,
            b,
            i,
            m,
        ),
    decreases m,
{
    if m > 0 {
        combination_is_linear(polys, a, b, i, (m - 1) as nat);
        let p = polys[m - 1][i];
        let x = a[m - 1];
        let y = b[m - 1];
        assert(p * (x + y) == p * x + p * y) by (nonlinear_arith);
    }
}

/// The linear combination with one coefficient one and all others zero is that one polynomial.
pub proof fn combination_of_one(polys: Seq<Seq<int>>, t: int, i: int, m: nat)
    requires
        0 <= t < polys.len(),
        m <= polys.len(),
    ensures
        crate::reference::combination(polys, one_at(t, polys.len()), i, m) == (if t < m {
            polys[t][i]
        } else {
            0
        }),
    decreases m,
{
    if m > 0 {
        combination_of_one(polys, t, i, (m - 1) as nat);
        let p = polys[m - 1][i];
        assert(p * 0 == 0 && p * 1 == p);
    }
}

/// The combination of a polynomial and its intermediate polynomials is linear in the coefficients.
pub proof fn combined_value_is_linear(
    poly: Seq<int>,
    intermediates: Seq<Seq<int>>,
    a: Seq<int>,
    b: Seq<int>,
    j: int,
    m: nat,
)
    requires
        m <= a.len(),
        a.len() == b.len(),
    ensures
        crate::combined_ops::combined_value(poly, intermediates, coeff_sums(a, b), j, m)
            == crate::combined_ops::combined_value(poly, intermediates, a, j, m)
            + crate::combined_ops::combined_value(poly, intermediates, b, j, m),
    decreases m,
{
    if m > 0 {
        combined_value_is_linear(poly, intermediates, a, b, j, (m - 1) as nat);
        let x = a[m - 1];
        let y = b[m - 1];
        let p = if m == 1 {
            poly[j]
        } else {
            intermediates[m - 2][j]
        };
        assert(p * (x + y) == p * x + p * y && (x + y) * p == x * p + y * p) by (nonlinear_arith);
    }
}

/// The combination of a polynomial and its intermediate polynomials with one coefficient one and all
/// others zero is that one polynomial: the first coefficient is that of the polynomial itself, and
/// what an intermediate polynomial lacks in length counts as zero.
pub proof fn combined_value_of_one(
    poly: Seq<int>,
    intermediates: Seq<Seq<int>>,
    t: int,
    j: int,
    n: nat,
)
    requires
        0 <= t < n,
        0 <= j < poly.len(),
    ensures
        crate::combined_ops::combined_value(poly, intermediates, one_at(t, n), j, n) == (if t == 0 {
            poly[j]
        } else if t <= intermediates.len() && j < intermediates[t - 1].len() {
            intermediates[t - 1][j]
        } else {
            0
        }),
{
    combined_prefix_of_one(poly, intermediates, t, j, n, n);
}

proof fn combined_prefix_of_one(
    poly: Seq<int>,
    intermediates: Seq<Seq<int>>,
    t: int,
    j: int,
    n: nat,
    m: nat,
)
    requires
        0 <= t < n,
        m <= n,
        0 <= j < poly.len(),
    ensures
        crate::combined_ops::combined_value(poly, intermediates, one_at(t, n), j, m) == (if t >= m {
            0
        } else if t == 0 {
            poly[j]
        } else if t <= intermediates.len() && j < intermediates[t - 1].len() {
            intermediates[t - 1][j]
        } else {
            0
        }),
    decreases m,
{
    if m > 0 {
        combined_prefix_of_one(poly, intermediates, t, j, n, (m - 1) as nat);
        let p = if m == 1 {
            poly[j]
        } else {
            intermediates[m - 2][j]
        };
        assert(p * 0 == 0 && p * 1 == p && 0 * p == 0 && 1 * p == p) by (nonlinear_arith);
    }
}

} // verus!
