//! What the sessions of polynomial operations hand to the host.

use vstd::prelude::*;

use crate::field::PrimeField;
use crate::combined_ops::{CombinedPolyOps, Either, EvalAndWitness, FixVarsResult};
use crate::poly_ops::{FixVars, PolyOpsKernel, PolySession, SinglePolyOpsKernel};
use crate::session::{Arg, Cmd, Elem, KernelId};

verus! {

/// The slots of the scalars that are in standard form after a list of commands.
pub open spec fn standard_after<F, B>(log: Seq<Cmd<F, B>>) -> Set<usize>
    decreases log.len(),
{
    if log.len() == 0 {
        Set::empty()
    } else {
        crate::msm_device::forms(standard_after(log.drop_last()), log.last())
    }
}

/// What a session hands to the host as scalars of 32 bytes each. Bytes that are not those of scalars
/// in standard form say nothing.
pub open spec fn scalars_handed<F: PrimeField, B>(log: Seq<Cmd<F, B>>) -> Seq<Seq<int>>
    decreases log.len(),
{
    if log.len() == 0 {
        Seq::empty()
    } else {
        let before = log.drop_last();
        let n = match log.last() {
            Cmd::Read { len, .. } => len / 32,
            _ => 0,
        };
        match log.last() {
            Cmd::Read { slot, elem, .. } => if elem == Elem::Byte {
                scalars_handed(before).push(
                    if standard_after(before).contains(slot) {
                        crate::field_device::run(
                            crate::field_device::idle(),
                            before,
                        ).slots[slot].take(n as int)
                    } else {
                        crate::field_device::unknown(n)
                    },
                )
            } else {
                scalars_handed(before)
            },
            _ => scalars_handed(before),
        }
    }
}

/// The device after the first three commands.
spec fn ready<F: PrimeField, B>(log: Seq<Cmd<F, B>>) -> crate::field_device::FieldDevice {
    let d = crate::field_device::idle();
    crate::field_device::step(
        crate::field_device::step(crate::field_device::step(d, log[0]), log[1]),
        log[2],
    )
}

/// What an element-wise session does up to where its result is read.
proof fn pointwise_runs<F: PrimeField>(kernel: KernelId, a: Seq<F>, b: Seq<F>, args: Seq<Arg>)
    requires
        0 < a.len(),
    ensures
        ({
            let plan = crate::poly_ops::pointwise_plan(kernel, a, b, args);
            let d3 = ready(plan);
            let e = crate::field_device::step(d3, plan[3]);
            &&& d3.slots[0] == crate::reference::values(a)
            &&& d3.slots[1] == crate::reference::values(b)
            &&& d3.slots[2] == crate::field_device::unknown(a.len())
            &&& e.outputs.len() == 0
            &&& crate::field_device::outputs(plan) == seq![e.slots[2].take(a.len() as int)]
        }),
{
    let plan = crate::poly_ops::pointwise_plan(kernel, a, b, args);
    let d = crate::field_device::idle();
    crate::field_device::run_five(d, plan);
    let d3 = ready(plan);
    let e = crate::field_device::step(d3, plan[3]);
    assert(e.outputs =~= Seq::<Seq<int>>::empty());
    assert(crate::field_device::step(e, plan[4]).outputs =~= seq![
        e.slots[2].take(a.len() as int),
    ]);
}

/// The session that scales a polynomial hands out the products of its elements with the scalar.
///
/// The lengths that kernels are told are 32 bit words, so that the law needs lengths that fit.
pub proof fn scaling_multiplies<'a, F: PrimeField>(
    kernel: &SinglePolyOpsKernel<F>,
    poly: &'a [F],
    scalar: &F,
    s: PolySession<'a, F>,
)
    requires
        call_ensures(SinglePolyOpsKernel::<F>::scale_poly, (kernel, poly, scalar), s),
        0 < poly@.len() <= u32::MAX,
    ensures
        crate::field_device::outputs(s@) == seq![
            Seq::new(
                poly@.len(),
                |j: int| (poly@[j].value() * scalar.value()) as int % (F::order() as int),
            ),
        ],
{
    let n = poly@.len();
    let args = seq![Arg::Buffer(0), Arg::Buffer(2), Arg::Buffer(1)];
    let plan = crate::poly_ops::pointwise_plan(KernelId::ScalePoly, poly@, seq![*scalar], args);
    assert(s@ == plan);
    pointwise_runs::<F>(KernelId::ScalePoly, poly@, seq![*scalar], args);
    crate::field_device::groups_suffice(n, crate::poly_ops::LOCAL_WORK_SIZE);
    let d = ready(plan);
    let e = crate::field_device::step(d, plan[3]);
    let want = Seq::new(
        n,
        |j: int| (poly@[j].value() * scalar.value()) as int % (F::order() as int),
    );
    assert(d.slots[1][0] == scalar.value());
    assert(e.slots[2].take(n as int) =~= want);
}

/// The session that adds two polynomials hands out the sums of their elements.
///
/// The lengths that kernels are told are 32 bit words, so that the law needs lengths that fit.
pub proof fn adding_adds<'a, F: PrimeField>(
    kernel: &SinglePolyOpsKernel<F>,
    a: &'a [F],
    b: &'a [F],
    s: PolySession<'a, F>,
)
    requires
        call_ensures(SinglePolyOpsKernel::<F>::add_poly, (kernel, a, b), s),
        a@.len() == b@.len(),
        0 < a@.len() <= u32::MAX,
    ensures
        crate::field_device::outputs(s@) == seq![
            Seq::new(a@.len(), |j: int| (a@[j].value() + b@[j].value()) as int % (F::order() as int)),
        ],
{
    let n = a@.len();
    let args = seq![Arg::Buffer(0), Arg::Buffer(1), Arg::Buffer(2)];
    let plan = crate::poly_ops::pointwise_plan(KernelId::AddPoly, a@, b@, args);
    assert(s@ == plan);
    pointwise_runs::<F>(KernelId::AddPoly, a@, b@, args);
    crate::field_device::groups_suffice(n, crate::poly_ops::LOCAL_WORK_SIZE);
    let d = ready(plan);
    let e = crate::field_device::step(d, plan[3]);
    let want = Seq::new(n, |j: int| (a@[j].value() + b@[j].value()) as int % (F::order() as int));
    assert(e.slots[2].take(n as int) =~= want);
}

/// The session that subtracts two polynomials hands out the differences of their elements: those of the
/// second one are taken away from those of the first.
///
/// The lengths that kernels are told are 32 bit words, so that the law needs lengths that fit.
pub proof fn subtracting_subtracts<'a, F: PrimeField>(
    kernel: &SinglePolyOpsKernel<F>,
    a: &'a [F],
    b: &'a [F],
    s: PolySession<'a, F>,
)
    requires
        call_ensures(SinglePolyOpsKernel::<F>::sub_poly, (kernel, a, b), s),
        a@.len() == b@.len(),
        0 < a@.len() <= u32::MAX,
    ensures
        crate::field_device::outputs(s@) == seq![
            Seq::new(a@.len(), |j: int| (a@[j].value() - b@[j].value()) % (F::order() as int)),
        ],
{
    let n = a@.len();
    let args = seq![Arg::Buffer(0), Arg::Buffer(1), Arg::Buffer(2)];
    let plan = crate::poly_ops::pointwise_plan(KernelId::SubPoly, a@, b@, args);
    assert(s@ == plan);
    pointwise_runs::<F>(KernelId::SubPoly, a@, b@, args);
    crate::field_device::groups_suffice(n, crate::poly_ops::LOCAL_WORK_SIZE);
    let d = ready(plan);
    let e = crate::field_device::step(d, plan[3]);
    let want = Seq::new(n, |j: int| (a@[j].value() - b@[j].value()) % (F::order() as int));
    assert(e.slots[2].take(n as int) =~= want);
}

/// The session that converts field elements hands out the numbers that the elements stand for, in
/// standard form, all of them and in order.
///
/// The lengths that kernels are told are 32 bit words, so that the law needs lengths that fit.
pub proof fn converting_keeps_values<'a, F: PrimeField>(
    kernel: &SinglePolyOpsKernel<F>,
    elements: &'a [F],
    s: PolySession<'a, F>,
)
    requires
        call_ensures(SinglePolyOpsKernel::<F>::to_scalar_bytes, (kernel, elements), s),
        0 < elements@.len() <= u32::MAX,
    ensures
        scalars_handed(s@) == seq![crate::reference::values(elements@)],
{
    let n = elements@.len();
    let plan = crate::poly_ops::to_scalar_plan(elements@);
    assert(s@ == plan);
    let v = crate::reference::values(elements@);
    let d = crate::field_device::idle();
    let before = plan.drop_last();
    crate::field_device::run_three(d, before);
    crate::field_device::groups_suffice(n, crate::poly_ops::LOCAL_WORK_SIZE);
    reveal_with_fuel(scalars_handed, 5);
    reveal_with_fuel(standard_after, 4);
    let d2 = crate::field_device::step(crate::field_device::step(d, plan[0]), plan[1]);
    assert(d2.slots[0] == v);
    assert(d2.slots[1] == crate::field_device::unknown(n));
    assert(v.take(n as int) =~= v);
    let e = crate::field_device::step(d2, plan[2]);
    assert(e.slots[1].take(n as int) =~= v);
    assert(n * 32 / 32 == n);
    assert(standard_after(before).contains(1));
    assert(scalars_handed(before) =~= Seq::<Seq<int>>::empty());
    assert(scalars_handed(plan) =~= seq![v]);
}

/// The session that fixes the lowest variable hands out, for each pair of neighbours, the value at
/// the challenge of the line through them.
///
/// The lengths that kernels are told are 32 bit words, so that the law needs lengths that fit.
pub proof fn fixing_interpolates<'a, F: PrimeField>(
    kernel: &SinglePolyOpsKernel<F>,
    poly: &'a [F],
    r: &F,
    s: PolySession<'a, F>,
)
    requires
        call_ensures(SinglePolyOpsKernel::<F>::fix_var, (kernel, poly, r), s),
        poly@.len() / 2 <= u32::MAX,
    ensures
        crate::field_device::outputs(s@) == seq![
            Seq::new(
                poly@.len() / 2,
                |j: int|
                    crate::reference::interpolate(
                        r.value() as int,
                        poly@[2 * j].value() as int,
                        poly@[2 * j + 1].value() as int,
                        F::order() as int,
                    ),
            ),
        ],
{
    crate::field_device::fix_var_outputs(poly@, *r);
    let v = crate::reference::values(poly@);
    let n = poly@.len() / 2;
    assert(crate::field_device::fixed(v, r.value() as int, n, F::order() as int) =~= Seq::new(
        n,
        |j: int|
            crate::reference::interpolate(
                r.value() as int,
                poly@[2 * j].value() as int,
                poly@[2 * j + 1].value() as int,
                F::order() as int,
            ),
    ));
}

/// Fixing the lowest variable and converting the result in one go hands out the numbers that fixing
/// alone hands out, in standard form.
///
/// The lengths that kernels are told are 32 bit words, so that the law needs lengths that fit.
pub proof fn fixing_and_converting_is_both<'a, F: PrimeField>(
    kernel: &SinglePolyOpsKernel<F>,
    poly: &'a [F],
    r: &F,
    alone: PolySession<'a, F>,
    both: PolySession<'a, F>,
)
    requires
        call_ensures(SinglePolyOpsKernel::<F>::fix_var, (kernel, poly, r), alone),
        call_ensures(SinglePolyOpsKernel::<F>::fix_var_to_scalar, (kernel, poly, r), both),
        poly@.len() / 2 <= u32::MAX,
    ensures
        scalars_handed(both@) == crate::field_device::outputs(alone@),
{
    let n = poly@.len() / 2;
    crate::field_device::fix_var_outputs(poly@, *r);
    let plan = both@;
    let v = crate::reference::values(poly@);
    let d = crate::field_device::idle();
    let before = plan.drop_last();
    crate::field_device::run_four(d, before);
    crate::field_device::groups_suffice(n, crate::poly_ops::LOCAL_WORK_SIZE);
    reveal_with_fuel(scalars_handed, 6);
    reveal_with_fuel(standard_after, 5);
    let d3 = ready(plan);
    assert(d3.slots[0] == v);
    assert(d3.slots[1][0] == r.value());
    assert(n * 32 / 32 == n);
    assert(d3.slots[2] == crate::field_device::unknown(n));
    let e = crate::field_device::step(d3, plan[3]);
    let new = crate::field_device::fixed(v, r.value() as int, n, F::order() as int);
    assert(e.slots[2].take(n as int) =~= new);
    assert(standard_after(before).contains(2));
    assert(scalars_handed(before) =~= Seq::<Seq<int>>::empty());
    assert(scalars_handed(plan) =~= seq![new]);
}

/// The session that combines polynomials hands out the sum of their multiples by the coefficients.
///
/// The lengths that kernels are told are 32 bit words, so that the law needs lengths that fit.
pub proof fn combining_adds_multiples<'a, F: PrimeField>(
    kernel: &SinglePolyOpsKernel<F>,
    polys: &[&[F]],
    coeffs: &'a [F],
    s: PolySession<'a, F>,
)
    requires
        call_ensures(SinglePolyOpsKernel::<F>::linear_combine, (kernel, polys, coeffs), s),
        crate::poly_ops::same_len(crate::poly_ops::polys_view(polys@)),
        polys@.len() == coeffs@.len(),
        0 < polys@[0]@.len() <= u32::MAX,
        polys@.len() <= u32::MAX,
    ensures
        crate::field_device::outputs(s@) == seq![
            Seq::new(
                polys@[0]@.len(),
                |j: int|
                    crate::reference::combination(
                        crate::field_device::poly_values(crate::poly_ops::polys_view(polys@)),
                        crate::reference::values(coeffs@),
                        j,
                        polys@.len(),
                    ) % (F::order() as int),
            ),
        ],
{
    crate::field_device::sessions_compute(
        crate::poly_ops::polys_view(polys@),
        coeffs@,
        Seq::<F>::empty(),
    );
    assert(crate::field_device::outputs(s@)[0] =~= Seq::new(
        polys@[0]@.len(),
        |j: int|
            crate::reference::combination(
                crate::field_device::poly_values(crate::poly_ops::polys_view(polys@)),
                crate::reference::values(coeffs@),
                j,
                polys@.len(),
            ) % (F::order() as int),
    ));
}

/// The session that evaluates polynomials hands out the value of each polynomial at each point: first
/// those at the first point, in the order of the polynomials, and so on.
///
/// The lengths that kernels are told are 32 bit words, so that the law needs lengths that fit.
pub proof fn evaluating_gives_values<'a, F: PrimeField>(
    kernel: &SinglePolyOpsKernel<F>,
    polys: &[&[F]],
    points: &'a [F],
    s: PolySession<'a, F>,
    p: int,
    i: int,
)
    requires
        call_ensures(SinglePolyOpsKernel::<F>::eval_univariate_batch, (kernel, polys, points), s),
        crate::poly_ops::same_len(crate::poly_ops::polys_view(polys@)),
        0 < polys@[0]@.len() <= u32::MAX,
        polys@.len() <= u32::MAX,
        points@.len() <= u32::MAX,
        0 <= p < points@.len(),
        0 <= i < polys@.len(),
    ensures
        ({
            let out = crate::field_device::outputs(s@);
            &&& out.len() == 1
            &&& out[0].len() == points@.len() * polys@.len()
            &&& out[0][p * polys@.len() + i] == crate::reference::eval(
                crate::reference::values(polys@[i]@),
                points@[p].value() as int,
            ) % (F::order() as int)
        }),
{
    let view = crate::poly_ops::polys_view(polys@);
    let q = F::order() as int;
    let k = polys@.len();
    crate::field_device::sessions_compute(view, Seq::new(k, |j: int| points@[0]), points@);
    let us = crate::reference::values(points@);
    let row = |x: int| crate::field_device::values_at(
        crate::field_device::poly_values(view),
        us[x],
        q,
    );
    crate::field_device::flat_row(row, points@.len(), k, p);
    let all = crate::field_device::flat(row, points@.len(), k);
    assert(crate::field_device::outputs(s@)[0] =~= all);
    assert(crate::field_device::row_of(all, p, k)[i] == row(p)[i]);
    assert((p + 1) * k == p * k + k) by (nonlinear_arith);
}

/// The session for one witness polynomial hands out the quotient of the polynomial by `x - u`, and so
/// does the one for many points for each of them.
///
/// The lengths that kernels are told are 32 bit words, so that the law needs lengths that fit.
pub proof fn witness_divides<'a, F: PrimeField>(
    kernel: &SinglePolyOpsKernel<F>,
    f: &'a [F],
    points: &'a [F],
    p: int,
    one: PolySession<'a, F>,
    all: PolySession<'a, F>,
)
    requires
        0 <= p < points@.len(),
        call_ensures(SinglePolyOpsKernel::<F>::witness_poly, (kernel, f, &points@[p]), one),
        call_ensures(SinglePolyOpsKernel::<F>::witness_poly_batch, (kernel, f, points), all),
        2 <= f@.len() <= u32::MAX,
        points@.len() <= u32::MAX,
    ensures
        ({
            let h = crate::field_device::outputs(one@);
            let hs = crate::field_device::outputs(all@);
            let width = (f@.len() - 1) as nat;
            &&& h == seq![
                crate::reference::residues(
                    crate::reference::quotient(
                        crate::reference::values(f@),
                        points@[p].value() as int,
                    ),
                    F::order() as int,
                ),
            ]
            &&& hs.len() == 1
            &&& hs[0].len() == points@.len() * width
            &&& hs[0].subrange(p * width, (p + 1) * width) == h[0]
        }),
{
    crate::field_device::witnesses_are_one_by_one(f@, points@, p);
    assert(crate::field_device::outputs(one@) =~= seq![
        crate::field_device::outputs(one@)[0],
    ]);
}

/// Fixing several variables hands out one polynomial for each challenge: the first one is the
/// polynomial with its lowest variable fixed, each other one is the one before it with its lowest
/// variable fixed. The operation that keeps the data on the device hands out the same.
///
/// The lengths that kernels are told are 32 bit words, so that the law needs lengths that fit.
pub proof fn fixing_several_goes_on<'a, F: PrimeField>(
    kernel: &SinglePolyOpsKernel<F>,
    ops: &CombinedPolyOps<F>,
    poly: &'a [F],
    challenges: &'a [F],
    s: PolySession<'a, F>,
    t: PolySession<'a, F>,
    i: int,
)
    requires
        call_ensures(
            SinglePolyOpsKernel::<F>::fix_vars_with_intermediates,
            (kernel, poly, challenges),
            s,
        ),
        call_ensures(
            CombinedPolyOps::<F>::fix_vars_with_intermediates_optimized,
            (ops, poly, challenges),
            Either::<FixVarsResult<F>, PolySession<'a, F>>::Run(t),
        ),
        challenges@.len() <= crate::arith::log2(poly@.len()),
        poly@.len() <= usize::MAX,
        poly@.len() / 2 <= u32::MAX,
        0 <= i < challenges@.len(),
    ensures
        ({
            let out = crate::field_device::outputs(s@);
            let before = if i == 0 {
                crate::reference::values(poly@)
            } else {
                out[i - 1]
            };
            &&& crate::field_device::outputs(t@) == out
            &&& out.len() == challenges@.len()
            &&& out[i] == Seq::new(
                before.len() / 2,
                |j: int|
                    crate::reference::interpolate(
                        challenges@[i].value() as int,
                        before[2 * j],
                        before[2 * j + 1],
                        F::order() as int,
                    ),
            )
        }),
{
    crate::field_device::fix_vars_outputs(poly@, challenges@);
    let q = F::order() as int;
    let pv = crate::reference::values(poly@);
    let cv = crate::reference::values(challenges@);
    let before = crate::field_device::fixed_in_turn(pv, cv, i as nat, q);
    assert(crate::field_device::fixed_in_turn(pv, cv, (i + 1) as nat, q)
        =~= crate::field_device::fixed(before, cv[i], before.len() / 2, q));
}

/// The session for evaluations and witness polynomials hands out the values of all polynomials at
/// all points, the linear combination of the polynomials, and for each point the quotient of the
/// combination by `x - u`.
///
/// The lengths that kernels are told are 32 bit words, so that the law needs lengths that fit.
pub proof fn evaluating_and_dividing_is_both<'a, F: PrimeField>(
    ops: &CombinedPolyOps<F>,
    polys: &[&[F]],
    points: &'a [F],
    coeffs: &'a [F],
    r: EvalAndWitness<'a, F>,
    p: int,
    i: int,
)
    requires
        call_ensures(
            CombinedPolyOps::<F>::eval_and_witness_batch,
            (ops, polys, points, coeffs),
            r,
        ),
        crate::poly_ops::same_len(crate::poly_ops::polys_view(polys@)),
        polys@.len() == coeffs@.len(),
        2 <= polys@[0]@.len() <= u32::MAX,
        polys@.len() <= u32::MAX,
        points@.len() <= u32::MAX,
        0 <= p < points@.len(),
        0 <= i < polys@.len(),
    ensures
        ({
            let out = crate::field_device::outputs(r.spec_session()@);
            let q = F::order() as int;
            let width = (polys@[0]@.len() - 1) as nat;
            &&& out.len() == 3
            &&& out[0].len() == points@.len() * polys@.len()
            &&& out[0][p * polys@.len() + i] == crate::reference::eval(
                crate::reference::values(polys@[i]@),
                points@[p].value() as int,
            ) % q
            &&& out[1] == Seq::new(
                polys@[0]@.len(),
                |j: int|
                    crate::reference::combination(
                        crate::field_device::poly_values(crate::poly_ops::polys_view(polys@)),
                        crate::reference::values(coeffs@),
                        j,
                        polys@.len(),
                    ) % q,
            )
            &&& out[2].len() == points@.len() * width
            &&& out[2].subrange(p * width, (p + 1) * width) == crate::reference::residues(
                crate::reference::quotient(out[1], points@[p].value() as int),
                q,
            )
        }),
{
    let view = crate::poly_ops::polys_view(polys@);
    let q = F::order() as int;
    let k = polys@.len();
    let s = r.spec_shape();
    crate::field_device::evaluations_and_witnesses(view, points@, coeffs@, s);
    let us = crate::reference::values(points@);
    let row = |x: int| crate::field_device::values_at(
        crate::field_device::poly_values(view),
        us[x],
        q,
    );
    crate::field_device::flat_row(row, points@.len(), k, p);
    let all = crate::field_device::flat(row, points@.len(), k);
    let out = crate::field_device::outputs(r.spec_session()@);
    assert(out[0] =~= all);
    assert(crate::field_device::row_of(all, p, k)[i] == row(p)[i]);
    assert((p + 1) * k == p * k + k) by (nonlinear_arith);
    let sum = out[1];
    let rows = |x: int| crate::field_device::witness(sum, us[x], q);
    crate::field_device::flat_row(rows, points@.len(), s.witness_len(), p);
    let quotients = crate::field_device::flat(rows, points@.len(), s.witness_len());
    assert(out[2] =~= quotients);
    assert(crate::field_device::row_of(quotients, p, s.witness_len()) == rows(p));
}

/// Fixing several variables runs the session that hands out all intermediate polynomials, on one
/// device and on several, and without challenges it is the first element of the polynomial.
pub proof fn fix_vars_runs_the_same<'a, F: PrimeField>(
    all: &PolyOpsKernel<F>,
    first: &SinglePolyOpsKernel<F>,
    poly: &'a [F],
    challenges: &'a [F],
    r: FixVars<'a, F>,
    q: FixVars<'a, F>,
    t: PolySession<'a, F>,
)
    requires
        call_ensures(PolyOpsKernel::<F>::fix_vars, (all, poly, challenges), r),
        call_ensures(SinglePolyOpsKernel::<F>::fix_vars, (first, poly, challenges), q),
        call_ensures(
            SinglePolyOpsKernel::<F>::fix_vars_with_intermediates,
            (first, poly, challenges),
            t,
        ),
    ensures
        challenges@.len() == 0 ==> t@.len() == 0 && r == FixVars::<'a, F>::Value(poly@[0]) && q
            == FixVars::<'a, F>::Value(poly@[0]),
        challenges@.len() > 0 ==> (r matches FixVars::Run(a) && a@ == t@),
        challenges@.len() > 0 ==> (q matches FixVars::Run(b) && b@ == t@),
{
}

/// The kernel for several devices fixes a variable as the one for a single device does.
pub proof fn all_fix_like_one<'a, F: PrimeField>(
    all: &PolyOpsKernel<F>,
    first: &SinglePolyOpsKernel<F>,
    poly: &'a [F],
    r: &F,
    s: PolySession<'a, F>,
    t: PolySession<'a, F>,
)
    requires
        call_ensures(PolyOpsKernel::<F>::fix_var, (all, poly, r), s),
        call_ensures(SinglePolyOpsKernel::<F>::fix_var, (first, poly, r), t),
    ensures
        s@ == t@,
{
}

/// The kernel for several devices combines polynomials as the one for a single device does.
pub proof fn all_combine_like_one<'a, F: PrimeField>(
    all: &PolyOpsKernel<F>,
    first: &SinglePolyOpsKernel<F>,
    polys: &[&[F]],
    coeffs: &'a [F],
    s: PolySession<'a, F>,
    t: PolySession<'a, F>,
)
    requires
        call_ensures(PolyOpsKernel::<F>::linear_combine, (all, polys, coeffs), s),
        call_ensures(SinglePolyOpsKernel::<F>::linear_combine, (first, polys, coeffs), t),
    ensures
        s@ == t@,
{
}

/// The kernel for several devices computes a witness polynomial as the one for a single device does.
pub proof fn all_divide_like_one<'a, F: PrimeField>(
    all: &PolyOpsKernel<F>,
    first: &SinglePolyOpsKernel<F>,
    f: &'a [F],
    u: &F,
    s: PolySession<'a, F>,
    t: PolySession<'a, F>,
)
    requires
        call_ensures(PolyOpsKernel::<F>::witness_poly, (all, f, u), s),
        call_ensures(SinglePolyOpsKernel::<F>::witness_poly, (first, f, u), t),
    ensures
        s@ == t@,
{
}

/// The kernel for several devices computes witness polynomials as the one for a single device does.
pub proof fn all_divide_many_like_one<'a, F: PrimeField>(
    all: &PolyOpsKernel<F>,
    first: &SinglePolyOpsKernel<F>,
    f: &'a [F],
    points: &'a [F],
    s: PolySession<'a, F>,
    t: PolySession<'a, F>,
)
    requires
        call_ensures(PolyOpsKernel::<F>::witness_poly_batch, (all, f, points), s),
        call_ensures(SinglePolyOpsKernel::<F>::witness_poly_batch, (first, f, points), t),
    ensures
        s@ == t@,
{
}

/// The kernel for several devices evaluates polynomials as the one for a single device does.
pub proof fn all_evaluate_like_one<'a, F: PrimeField>(
    all: &PolyOpsKernel<F>,
    first: &SinglePolyOpsKernel<F>,
    polys: &[&[F]],
    points: &'a [F],
    s: PolySession<'a, F>,
    t: PolySession<'a, F>,
)
    requires
        call_ensures(PolyOpsKernel::<F>::eval_univariate_batch, (all, polys, points), s),
        call_ensures(SinglePolyOpsKernel::<F>::eval_univariate_batch, (first, polys, points), t),
    ensures
        s@ == t@,
{
}

/// The kernel for several devices converts field elements as the one for a single device does.
pub proof fn all_convert_like_one<'a, F: PrimeField>(
    all: &PolyOpsKernel<F>,
    first: &SinglePolyOpsKernel<F>,
    elements: &'a [F],
    s: PolySession<'a, F>,
    t: PolySession<'a, F>,
)
    requires
        call_ensures(PolyOpsKernel::<F>::to_scalar_bytes, (all, elements), s),
        call_ensures(SinglePolyOpsKernel::<F>::to_scalar_bytes, (first, elements), t),
    ensures
        s@ == t@,
{
}

/// The kernel for several devices fixes a variable and converts the result as the one for a single device does.
pub proof fn all_fix_and_convert_like_one<'a, F: PrimeField>(
    all: &PolyOpsKernel<F>,
    first: &SinglePolyOpsKernel<F>,
    poly: &'a [F],
    r: &F,
    s: PolySession<'a, F>,
    t: PolySession<'a, F>,
)
    requires
        call_ensures(PolyOpsKernel::<F>::fix_var_to_scalar, (all, poly, r), s),
        call_ensures(SinglePolyOpsKernel::<F>::fix_var_to_scalar, (first, poly, r), t),
    ensures
        s@ == t@,
{
}

} // verus!
