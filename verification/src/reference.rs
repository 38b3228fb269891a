//! The polynomial operations on the host, and what they compute.

use vstd::prelude::*;

use crate::field::PrimeField;

verus! {

/// The numbers that field elements stand for.
pub open spec fn values<F: PrimeField>(s: Seq<F>) -> Seq<int> {
    s.map_values(|f: F| f.value() as int)
}

/// The value of the polynomial with the given coefficients, lowest first.
pub open spec fn eval(coeffs: Seq<int>, x: int) -> int
    decreases coeffs.len(),
{
    if coeffs.len() == 0 {
        0
    } else {
        coeffs.first() + x * eval(coeffs.drop_first(), x)
    }
}

/// The quotient of a polynomial by `x - u`: coefficient `i` is the value at `u` of the polynomial
/// without its first `i + 1` coefficients.
pub open spec fn quotient(f: Seq<int>, u: int) -> Seq<int> {
    Seq::new((f.len() - 1) as nat, |i: int| eval(f.skip(i + 1), u))
}

/// The sum of `polys[k][i] * coeffs[k]` over the first `m` polynomials.
pub open spec fn combination(polys: Seq<Seq<int>>, coeffs: Seq<int>, i: int, m: nat) -> int
    decreases m,
{
    if m == 0 {
        0
    } else {
        combination(polys, coeffs, i, (m - 1) as nat) + polys[m - 1][i] * coeffs[m - 1]
    }
}

/// The residues of numbers.
pub open spec fn residues(s: Seq<int>, p: int) -> Seq<int> {
    s.map_values(|v: int| v % p)
}

/// The value at `r` of the line through `low` at zero and `high` at one.
pub open spec fn interpolate(r: int, low: int, high: int, p: int) -> int {
    (r * (high - low) + low) % p
}

/// Interpolation gives back the two ends.
pub proof fn interpolation_ends(low: int, high: int, p: int)
    requires
        0 <= low < p,
        0 <= high < p,
    ensures
        interpolate(0, low, high, p) == low,
        interpolate(1, low, high, p) == high,
{
    assert(0 * (high - low) == 0 && 1 * (high - low) == high - low) by (nonlinear_arith);
    vstd::arithmetic::div_mod::lemma_small_mod(low as nat, p as nat);
    vstd::arithmetic::div_mod::lemma_small_mod(high as nat, p as nat);
}

/// Evaluating the residues gives the same residue.
pub proof fn eval_of_residues(f: Seq<int>, x: int, p: int)
    requires
        p > 0,
    ensures
        eval(residues(f, p), x) % p == eval(f, x) % p,
    decreases f.len(),
{
    if f.len() > 0 {
        let g = f.drop_first();
        assert(residues(f, p).drop_first() =~= residues(g, p));
        eval_of_residues(g, x, p);
        let a = f.first();
        let e = eval(residues(g, p), x);
        let d = eval(g, x);
        vstd::arithmetic::div_mod::lemma_mul_mod_noop_right(x, e, p);
        vstd::arithmetic::div_mod::lemma_mul_mod_noop_right(x, d, p);
        vstd::arithmetic::div_mod::lemma_add_mod_noop(a % p, x * e, p);
        vstd::arithmetic::div_mod::lemma_add_mod_noop(a, x * d, p);
        vstd::arithmetic::div_mod::lemma_mod_twice(a, p);
    }
}

/// A polynomial is its quotient by `x - u` times `x - u`, plus its value at `u`.
pub proof fn quotient_identity(f: Seq<int>, u: int, x: int)
    requires
        f.len() > 0,
    ensures
        eval(f, x) == eval(quotient(f, u), x) * (x - u) + eval(f, u),
    decreases f.len(),
{
    let g = f.drop_first();
    let q = quotient(f, u);
    if g.len() == 0 {
        assert(q =~= Seq::empty());
        assert(eval(q, x) == 0);
        assert(eval(g, x) == 0 && eval(g, u) == 0);
        assert(x * 0 == 0 && u * 0 == 0 && 0 * (x - u) == 0) by (nonlinear_arith);
    } else {
        quotient_identity(g, u, x);
        let r = quotient(g, u);
        assert(f.skip(1) =~= g);
        assert forall|i: int| 0 <= i < r.len() implies q.drop_first()[i] == r[i] by {
            assert(f.skip(i + 2) =~= g.skip(i + 1));
        }
        assert(q.drop_first() =~= r);
        assert(q.first() == eval(g, u));
        let gx = eval(g, x);
        let gu = eval(g, u);
        let rx = eval(r, x);
        let c = f.first();
        assert(c + x * gx == (gu + x * rx) * (x - u) + (c + u * gu)) by (nonlinear_arith)
            requires
                gx == rx * (x - u) + gu,
        ;
    }
}

/// The witness polynomial of a polynomial over a field divides as it should: at every point `x`,
/// `f(x) = h(x) * (x - u) + f(u)` modulo the order of the field.
pub proof fn witness_identity(f: Seq<int>, u: int, x: int, p: int)
    requires
        f.len() > 0,
        p > 0,
    ensures
        eval(f, x) % p == (eval(residues(quotient(f, u), p), x) * (x - u) + eval(f, u)) % p,
{
    quotient_identity(f, u, x);
    let q = quotient(f, u);
    eval_of_residues(q, x, p);
    let a = eval(residues(q, p), x);
    let b = eval(q, x);
    let d = x - u;
    let e = eval(f, u);
    vstd::arithmetic::div_mod::lemma_mul_mod_noop_left(a, d, p);
    vstd::arithmetic::div_mod::lemma_mul_mod_noop_left(b, d, p);
    vstd::arithmetic::div_mod::lemma_add_mod_noop(a * d, e, p);
    vstd::arithmetic::div_mod::lemma_add_mod_noop(b * d, e, p);
}

/// Fix the lowest variable of a multilinear polynomial.
pub fn fix_var_cpu<F: PrimeField>(poly: &[F], r: &F) -> (out: Vec<F>)
    ensures
        out@.len() == poly@.len() / 2,
        forall|j: int|
            0 <= j < out@.len() ==> (#[trigger] out@[j]).value() == interpolate(
                r.value() as int,
                poly@[2 * j].value() as int,
                poly@[2 * j + 1].value() as int,
                F::order() as int,
            ),
{
    let n: usize = poly.len() / 2;
    let mut out: Vec<F> = Vec::new();
    let mut j: usize = 0;
    while j < n
        invariant
            j <= n,
            n == poly@.len() / 2,
            poly@.len() <= usize::MAX,
            out@.len() == j,
            forall|k: int|
                0 <= k < j ==> (#[trigger] out@[k]).value() == interpolate(
                    r.value() as int,
                    poly@[2 * k].value() as int,
                    poly@[2 * k + 1].value() as int,
                    F::order() as int,
                ),
        decreases n - j,
    {
        let low: F = poly[2 * j];
        let high: F = poly[2 * j + 1];
        let step: F = high.minus(&low);
        let scaled: F = r.times(&step);
        let value: F = scaled.plus(&low);
        proof {
            low.in_range();
            let p = F::order() as int;
            let rv = r.value() as int;
            let d = high.value() - low.value();
            let l = low.value() as int;
            vstd::arithmetic::div_mod::lemma_mul_mod_noop_right(rv, d, p);
            vstd::arithmetic::div_mod::lemma_add_mod_noop(rv * d, l, p);
            vstd::arithmetic::div_mod::lemma_small_mod(l as nat, p as nat);
        }
        out.push(value);
        j = j + 1;
    }
    out
}

/// Linear combination of polynomials: out = sum(coeffs[i] * polys[i])
pub fn linear_combine_cpu<F: PrimeField>(polys: &[&[F]], coeffs: &[F]) -> (out: Vec<F>)
    requires
        polys@.len() == coeffs@.len(),
        crate::poly_ops::same_len(crate::poly_ops::polys_view(polys@)),
    ensures
        out@.len() == polys@[0]@.len(),
        forall|i: int|
            0 <= i < out@.len() ==> (#[trigger] out@[i]).value() == combination(
                polys@.map_values(|p: &[F]| values(p@)),
                values(coeffs@),
                i,
                polys@.len(),
            ) % (F::order() as int),
{
    let poly_len: usize = polys[0].len();
    let ghost pv = polys@.map_values(|p: &[F]| values(p@));
    let ghost cv = values(coeffs@);
    assert(crate::poly_ops::polys_view(polys@)[0] == polys@[0]@);
    let mut out: Vec<F> = Vec::new();
    let mut i: usize = 0;
    while i < poly_len
        invariant
            i <= poly_len,
            poly_len == polys@[0]@.len(),
            polys@.len() == coeffs@.len(),
            pv == polys@.map_values(|p: &[F]| values(p@)),
            cv == values(coeffs@),
            crate::poly_ops::same_len(crate::poly_ops::polys_view(polys@)),
            out@.len() == i,
            forall|j: int|
                0 <= j < i ==> (#[trigger] out@[j]).value() == combination(
                    pv,
                    cv,
                    j,
                    polys@.len(),
                ) % (F::order() as int),
        decreases poly_len - i,
    {
        let mut acc: F = F::zero();
        let mut k: usize = 0;
        proof {
            acc.in_range();
            vstd::arithmetic::div_mod::lemma_small_mod(0, F::order());
        }
        while k < polys.len()
            invariant
                k <= polys@.len(),
                i < poly_len,
                poly_len == polys@[0]@.len(),
                polys@.len() == coeffs@.len(),
                pv == polys@.map_values(|p: &[F]| values(p@)),
                cv == values(coeffs@),
                crate::poly_ops::same_len(crate::poly_ops::polys_view(polys@)),
                F::order() > 1,
                acc.value() == combination(pv, cv, i as int, k as nat) % (F::order() as int),
            decreases polys@.len() - k,
        {
            assert(crate::poly_ops::polys_view(polys@)[k as int].len()
                == crate::poly_ops::polys_view(polys@)[0].len());
            let term: F = polys[k][i].times(&coeffs[k]);
            proof {
                let p = F::order() as int;
                let a = combination(pv, cv, i as int, k as nat);
                let b = polys@[k as int]@[i as int].value() as int;
                let c = coeffs@[k as int].value() as int;
                assert(pv[k as int][i as int] == b);
                assert(cv[k as int] == c);
                vstd::arithmetic::div_mod::lemma_add_mod_noop(a, b * c, p);
            }
            acc = acc.plus(&term);
            k = k + 1;
        }
        out.push(acc);
        i = i + 1;
    }
    out
}

/// Compute witness polynomial for KZG opening.
pub fn witness_poly_cpu<F: PrimeField>(f: &[F], u: &F) -> (h: Vec<F>)
    requires
        f@.len() > 0,
    ensures
        h@.len() == f@.len() - 1,
        values(h@) == residues(
            quotient(values(f@), u.value() as int),
            F::order() as int,
        ),
{
    let n: usize = f.len();
    let mut h: Vec<F> = Vec::new();
    let mut k: usize = 0;
    while k < n - 1
        invariant
            k <= n - 1,
            n == f@.len(),
            h@.len() == k,
        decreases n - 1 - k,
    {
        h.push(F::zero());
        k = k + 1;
    }
    let ghost fv = values(f@);
    let ghost uv = u.value() as int;
    let ghost p = F::order() as int;
    let mut carry: F = F::zero();
    let mut i: usize = n;
    proof {
        carry.in_range();
        vstd::arithmetic::div_mod::lemma_small_mod(0, F::order());
        assert(fv.skip(n as int) =~= Seq::empty());
    }
    while i > 1
        invariant
            1 <= i <= n,
            n == f@.len(),
            h@.len() == n - 1,
            fv == values(f@),
            uv == u.value(),
            p == F::order(),
            p > 1,
            carry.value() == eval(fv.skip(i as int), uv) % p,
            forall|j: int|
                i - 1 <= j < n - 1 ==> (#[trigger] h@[j]).value() == eval(fv.skip(j + 1), uv) % p,
        decreases i,
    {
        i = i - 1;
        let scaled: F = carry.times(u);
        proof {
            let rest = fv.skip(i + 1);
            let e = eval(rest, uv);
            let c = fv[i as int];
            assert(fv.skip(i as int).drop_first() =~= rest);
            assert(fv.skip(i as int).first() == c);
            assert(c == f@[i as int].value());
            vstd::arithmetic::div_mod::lemma_mul_mod_noop_left(e, uv, p);
            assert(e * uv == uv * e) by (nonlinear_arith);
            vstd::arithmetic::div_mod::lemma_add_mod_noop_right(c, uv * e, p);
        }
        carry = f[i].plus(&scaled);
        h.set(i - 1, carry);
    }
    proof {
        let want = residues(quotient(fv, uv), p);
        assert forall|j: int| 0 <= j < n - 1 implies values(h@)[j] == want[j] by {
            assert(h@[j].value() == eval(fv.skip(j + 1), uv) % p);
        }
        assert(values(h@) =~= want);
    }
    h
}

/// Univariate polynomial evaluation using Horner's method.
pub fn eval_univariate_cpu<F: PrimeField>(coeffs: &[F], x: &F) -> (r: F)
    requires
        coeffs@.len() > 0,
    ensures
        r.value() == eval(values(coeffs@), x.value() as int) % (F::order() as int),
{
    let ghost cv = values(coeffs@);
    let ghost xv = x.value() as int;
    let ghost p = F::order() as int;
    let mut i: usize = coeffs.len() - 1;
    let mut result: F = coeffs[i];
    proof {
        result.in_range();
        let last = cv.skip(i as int);
        assert(last.drop_first() =~= Seq::empty());
        assert(last.first() == cv[i as int]);
        assert(eval(last.drop_first(), xv) == 0);
        assert(xv * 0 == 0);
        assert(eval(last, xv) == result.value());
        vstd::arithmetic::div_mod::lemma_small_mod(result.value(), p as nat);
    }
    while i > 0
        invariant
            i < coeffs@.len(),
            cv == values(coeffs@),
            xv == x.value(),
            p == F::order(),
            p > 1,
            result.value() == eval(cv.skip(i as int), xv) % p,
        decreases i,
    {
        i = i - 1;
        let scaled: F = result.times(x);
        proof {
            let rest = cv.skip(i + 1);
            let e = eval(rest, xv);
            let c = cv[i as int];
            assert(cv.skip(i as int).drop_first() =~= rest);
            assert(cv.skip(i as int).first() == c);
            assert(c == coeffs@[i as int].value());
            vstd::arithmetic::div_mod::lemma_mul_mod_noop_left(e, xv, p);
            assert(e * xv == xv * e) by (nonlinear_arith);
            vstd::arithmetic::div_mod::lemma_add_mod_noop_right(c, xv * e, p);
        }
        result = scaled.plus(&coeffs[i]);
    }
    assert(cv.skip(0) =~= cv);
    result
}

} // verus!
