//! Several polynomial operations in one session.

use std::marker::PhantomData;

use vstd::prelude::*;

use crate::arith::div_ceil;
use crate::error::EcResult;
use crate::field::PrimeField;
use crate::opencl::Program;
use crate::poly_ops::{fix_in_turn, flatten, reshape, PolySession, LOCAL_WORK_SIZE};
use crate::session::{Arg, Cmd, DataView, Elem, HostData, KernelId, Session};
use crate::witness::{
    launch_phase1, launch_phase2, launch_phase3, WitnessShape, WitnessSlots,
};

verus! {

/// Result of a combined fix_vars operation that includes intermediates.
#[derive(Debug)]
pub struct FixVarsResult<F> {
    /// All intermediate polynomials from fix_var iterations.
    pub intermediates: Vec<Vec<F>>,
    /// The final single-element result.
    pub final_value: F,
}

/// Combined GPU operations for HyperKZG commit-open flow.
///
/// This struct plans multiple GPU operations in a single session, keeping data on GPU between
/// operations and avoiding redundant transfers.
#[derive(Debug)]
pub struct CombinedPolyOps<F> {
    program: Program,
    _phantom: PhantomData<F>,
}

/// Either a result that takes no device, or a session.
pub enum Either<R, S> {
    /// The result.
    Done(R),
    /// What the device has to do.
    Run(S),
}

/// What coefficient `i` contributes to element `j` of a combination: a multiple of the polynomial
/// for the first one, of an intermediate polynomial for the others, and nothing past the end.
pub open spec fn contribution(
    poly: Seq<int>,
    intermediates: Seq<Seq<int>>,
    coeffs: Seq<int>,
    j: int,
    i: int,
) -> int {
    if i == 0 {
        poly[j] * coeffs[i]
    } else if i - 1 < intermediates.len() && j < intermediates[i - 1].len() {
        intermediates[i - 1][j] * coeffs[i]
    } else {
        0
    }
}

/// The contributions of the first `m` coefficients to element `j`.
pub open spec fn combined_value(
    poly: Seq<int>,
    intermediates: Seq<Seq<int>>,
    coeffs: Seq<int>,
    j: int,
    m: nat,
) -> int
    decreases m,
{
    if m == 0 {
        0
    } else {
        combined_value(poly, intermediates, coeffs, j, (m - 1) as nat) + contribution(
            poly,
            intermediates,
            coeffs,
            j,
            m - 1,
        )
    }
}

/// The polynomials of some vectors, as numbers.
pub open spec fn rows<F: PrimeField>(s: Seq<Vec<F>>) -> Seq<Seq<int>> {
    s.map_values(|v: Vec<F>| crate::reference::values(v@))
}

/// The session of [`CombinedPolyOps::eval_and_witness_batch`].
pub open spec fn eval_and_witness_plan<F>(
    polys: Seq<Seq<F>>,
    points: Seq<F>,
    coeffs: Seq<F>,
    s: WitnessShape,
) -> Seq<Cmd<F, ()>> {
    let len = polys[0].len();
    let total = polys.len() * points.len();
    let t = witness_slots();
    seq![
        Cmd::Upload { slot: 0, data: DataView::Scalars(crate::poly_ops::concat(polys)) },
        Cmd::Upload { slot: 1, data: DataView::Scalars(points) },
        Cmd::Upload { slot: 2, data: DataView::Scalars(coeffs) },
        Cmd::Alloc { slot: 3, elem: Elem::Scalar, len: total },
        Cmd::Launch {
            kernel: KernelId::EvalUnivariateBatch,
            global: crate::witness::groups(total),
            local: LOCAL_WORK_SIZE as nat,
            args: seq![
                Arg::Buffer(0),
                Arg::Buffer(1),
                Arg::Buffer(3),
                Arg::Word(polys.len() as u32),
                Arg::Word(len as u32),
                Arg::Word(points.len() as u32),
            ],
        },
        Cmd::Read { slot: 3, elem: Elem::Scalar, len: total },
        Cmd::Alloc { slot: 4, elem: Elem::Scalar, len },
        Cmd::Launch {
            kernel: KernelId::LinearCombine,
            global: crate::witness::groups(len),
            local: LOCAL_WORK_SIZE as nat,
            args: seq![
                Arg::Buffer(0),
                Arg::Buffer(2),
                Arg::Buffer(4),
                Arg::Word(polys.len() as u32),
                Arg::Word(len as u32),
            ],
        },
        Cmd::Read { slot: 4, elem: Elem::Scalar, len },
        Cmd::Alloc { slot: 5, elem: Elem::Scalar, len: s.total_witnesses() },
        Cmd::Alloc { slot: 6, elem: Elem::Scalar, len: s.total_carries() },
        crate::witness::phase1(t, s),
        Cmd::Alloc { slot: 7, elem: Elem::Scalar, len: s.total_carries() },
        crate::witness::phase2(t, s),
        crate::witness::phase3(t, s),
        Cmd::Read { slot: 5, elem: Elem::Scalar, len: s.total_witnesses() },
    ]
}

/// What [`CombinedPolyOps::eval_and_witness_batch`] does with empty polynomials: it ends with the
/// upload, as the driver makes no buffer without bytes.
pub open spec fn no_elements_plan<F>() -> Seq<Cmd<F, ()>> {
    seq![Cmd::Upload { slot: 0, data: DataView::Scalars(Seq::empty()) }]
}

/// The slots of the witness computation.
pub open spec fn witness_slots() -> WitnessSlots {
    WitnessSlots { poly: 4, witnesses: 5, carries: 6, propagated: 7, points: 1 }
}

/// Evaluations and witnesses that have been planned.
pub struct EvalAndWitness<'a, F> {
    /// What the device has to do.
    session: PolySession<'a, F>,
    /// How the witness polynomials are cut into chunks.
    shape: WitnessShape,
    /// The number of polynomials.
    num_polys: usize,
}

/// Add `coeff * values[j]` to `result[j]`, as far as both go.
fn add_scaled<F: PrimeField>(result: &mut Vec<F>, values: &[F], coeff: &F)
    ensures
        final(result)@.len() == old(result)@.len(),
        forall|j: int|
            0 <= j < old(result)@.len() ==> (#[trigger] final(result)@[j]).value() == (if j
                < values@.len() {
                (old(result)@[j].value() + values@[j].value() * coeff.value()) % F::order()
            } else {
                old(result)@[j].value()
            }),
{
    let mut j: usize = 0;
    let ghost before = result@;
    while j < values.len() && j < result.len()
        invariant
            j <= values@.len(),
            j <= result@.len(),
            result@.len() == before.len(),
            forall|k: int|
                0 <= k < j ==> (#[trigger] result@[k]).value() == (before[k].value()
                    + values@[k].value() * coeff.value()) % F::order(),
            forall|k: int| j <= k < before.len() ==> #[trigger] result@[k] == before[k],
        decreases values@.len() - j,
    {
        let term: F = values[j].times(coeff);
        let sum: F = result[j].plus(&term);
        proof {
            term.in_range();
            vstd::arithmetic::div_mod::lemma_add_mod_noop_right(
                before[j as int].value() as int,
                (values@[j as int].value() * coeff.value()) as int,
                F::order() as int,
            );
        }
        result.set(j, sum);
        j = j + 1;
    }
}

/// The linear combination of a polynomial and its intermediates, on the host since the
/// intermediates have been downloaded anyway. Without coefficients it is the polynomial itself.
pub fn combine<F: PrimeField>(poly: &[F], intermediates: &Vec<Vec<F>>, coeffs: &[F]) -> (r: Vec<F>)
    ensures
        coeffs@.len() == 0 ==> r@ == poly@,
        r@.len() == poly@.len(),
        coeffs@.len() > 0 ==> forall|j: int|
            0 <= j < r@.len() ==> (#[trigger] r@[j]).value() == combined_value(
                crate::reference::values(poly@),
                rows(intermediates@),
                crate::reference::values(coeffs@),
                j,
                coeffs@.len(),
            ) % (F::order() as int),
{
    if coeffs.len() == 0 {
        return vstd::slice::slice_to_vec(poly);
    }
    let ghost pv = crate::reference::values(poly@);
    let ghost iv = rows(intermediates@);
    let ghost cv = crate::reference::values(coeffs@);
    let ghost p = F::order() as int;
    let mut result: Vec<F> = Vec::new();
    let mut k: usize = 0;
    while k < poly.len()
        invariant
            k <= poly@.len(),
            result@.len() == k,
            p == F::order(),
            forall|j: int|
                0 <= j < k ==> (#[trigger] result@[j]).value() == combined_value(
                    pv,
                    iv,
                    cv,
                    j,
                    0,
                ) % p,
        decreases poly@.len() - k,
    {
        let zero: F = F::zero();
        proof {
            zero.in_range();
            vstd::arithmetic::div_mod::lemma_small_mod(0, F::order());
        }
        result.push(zero);
        k = k + 1;
    }
    let mut i: usize = 0;
    while i < coeffs.len()
        invariant
            i <= coeffs@.len(),
            result@.len() == poly@.len(),
            p == F::order(),
            pv == crate::reference::values(poly@),
            iv == rows(intermediates@),
            cv == crate::reference::values(coeffs@),
            forall|j: int|
                0 <= j < poly@.len() ==> (#[trigger] result@[j]).value() == combined_value(
                    pv,
                    iv,
                    cv,
                    j,
                    i as nat,
                ) % p,
        decreases coeffs@.len() - i,
    {
        let ghost before = result@;
        if i == 0 {
            add_scaled(&mut result, poly, &coeffs[i]);
        } else if i - 1 < intermediates.len() {
            add_scaled(&mut result, intermediates[i - 1].as_slice(), &coeffs[i]);
        }
        proof {
            assert forall|j: int| 0 <= j < poly@.len() implies (
            #[trigger] result@[j]).value() == combined_value(pv, iv, cv, j, (i + 1) as nat)
                % p by {
                let a = combined_value(pv, iv, cv, j, i as nat);
                let c = contribution(pv, iv, cv, j, i as int);
                assert(before[j].value() == a % p);
                before[j].in_range();
                vstd::arithmetic::div_mod::lemma_add_mod_noop(a, c, p);
                vstd::arithmetic::div_mod::lemma_mod_twice(a, p);
                vstd::arithmetic::div_mod::lemma_add_mod_noop(a % p, c, p);
                if i > 0 && i - 1 < intermediates@.len() {
                    assert(iv[i - 1] == crate::reference::values(intermediates@[i - 1]@));
                }
            }
        }
        i = i + 1;
    }
    result
}

impl<F: PrimeField> CombinedPolyOps<F> {
    /// The program whose kernels are run.
    pub closed spec fn spec_program(&self) -> Program {
        self.program
    }

    /// Create a new combined operations handler.
    pub fn create(program: Program) -> (r: EcResult<Self>)
        ensures
            r matches Ok(k) && k.spec_program() == program,
    {
        Ok(CombinedPolyOps { program, _phantom: PhantomData })
    }

    /// The program whose kernels are run.
    pub fn program(&self) -> (r: &Program)
        ensures
            *r == self.spec_program(),
    {
        &self.program
    }

    fn fix_all<'a>(&self, poly: &'a [F], challenges: &'a [F]) -> (s: PolySession<'a, F>)
        requires
            challenges@.len() > 0,
            vstd::arithmetic::power2::is_pow2(poly@.len() as int),
            challenges@.len() <= crate::arith::log2(poly@.len()),
        ensures
            s.wf(),
            s@ == crate::poly_ops::fix_vars_plan(poly@, challenges@),
    {
        let mut s: PolySession<'a, F> = Session::new();
        s.create_buffer_from(0, HostData::Scalars(poly));
        s.create_buffer_from(1, HostData::Scalars(challenges));
        fix_in_turn(&mut s, poly.len(), challenges.len());
        assert(s@ =~= crate::poly_ops::fix_vars_plan(poly@, challenges@));
        s
    }

    /// Perform fix_vars and return all intermediate results without extra transfers.
    ///
    /// This is equivalent to `fix_vars_with_intermediates` but optimized to
    /// minimize GPU-CPU transfers by keeping data on GPU between iterations.
    pub fn fix_vars_with_intermediates_optimized<'a>(
        &self,
        poly: &'a [F],
        challenges: &'a [F],
    ) -> (r: Either<FixVarsResult<F>, PolySession<'a, F>>)
        requires
            vstd::arithmetic::power2::is_pow2(poly@.len() as int),
            challenges@.len() <= crate::arith::log2(poly@.len()),
        ensures
            challenges@.len() == 0 ==> (r matches Either::Done(d) && d.intermediates@.len() == 0
                && d.final_value == poly@[0]),
            challenges@.len() > 0 ==> (r matches Either::Run(s) && s.wf() && s@
                == crate::poly_ops::fix_vars_plan(poly@, challenges@)),
    {
        proof {
            reveal(vstd::arithmetic::power2::is_pow2);
        }
        if challenges.len() == 0 {
            return Either::Done(
                FixVarsResult { intermediates: Vec::new(), final_value: poly[0] },
            );
        }
        Either::Run(self.fix_all(poly, challenges))
    }

    /// The result of [`CombinedPolyOps::fix_vars_with_intermediates_optimized`], from what the
    /// device handed back.
    pub fn finish_fix_vars(&self, intermediates: Vec<Vec<F>>) -> (r: FixVarsResult<F>)
        requires
            intermediates@.len() > 0 ==> intermediates@.last()@.len() > 0,
        ensures
            r.intermediates == intermediates,
            intermediates@.len() > 0 ==> r.final_value == intermediates@.last()@[0],
            intermediates@.len() == 0 ==> r.final_value.value() == 0,
    {
        let final_value: F = if intermediates.len() > 0 {
            intermediates[intermediates.len() - 1][0]
        } else {
            F::zero()
        };
        FixVarsResult { intermediates, final_value }
    }

    /// Combined fix_vars + linear combination in a single GPU session.
    ///
    /// This performs:
    /// 1. fix_vars_with_intermediates on the input polynomial
    /// 2. Linear combination of all polynomials (original + intermediates)
    ///
    /// Without challenges there are no intermediates, and the combination is that of the
    /// polynomial alone, which takes no device.
    pub fn fix_vars_and_combine<'a>(
        &self,
        poly: &'a [F],
        challenges: &'a [F],
        coeffs: &[F],
    ) -> (r: Either<(Vec<Vec<F>>, Vec<F>), PolySession<'a, F>>)
        requires
            vstd::arithmetic::power2::is_pow2(poly@.len() as int),
            challenges@.len() <= crate::arith::log2(poly@.len()),
        ensures
            challenges@.len() == 0 ==> (r matches Either::Done(d) && d.0@.len() == 0 && d.1@.len()
                == poly@.len() && (coeffs@.len() == 0 ==> d.1@ == poly@) && (coeffs@.len() > 0
                ==> forall|j: int|
                0 <= j < d.1@.len() ==> (#[trigger] d.1@[j]).value() == combined_value(
                    crate::reference::values(poly@),
                    Seq::empty(),
                    crate::reference::values(coeffs@),
                    j,
                    coeffs@.len(),
                ) % (F::order() as int))),
            challenges@.len() > 0 ==> (r matches Either::Run(s) && s.wf() && s@
                == crate::poly_ops::fix_vars_plan(poly@, challenges@)),
    {
        if challenges.len() == 0 {
            let none: Vec<Vec<F>> = Vec::new();
            assert(rows(none@) =~= Seq::empty());
            let combined = combine(poly, &none, coeffs);
            return Either::Done((none, combined));
        }
        Either::Run(self.fix_all(poly, challenges))
    }

    /// The result of [`CombinedPolyOps::fix_vars_and_combine`], from what the device handed back.
    pub fn finish_combine(&self, poly: &[F], intermediates: Vec<Vec<F>>, coeffs: &[F]) -> (r: (
        Vec<Vec<F>>,
        Vec<F>,
    ))
        ensures
            r.0 == intermediates,
            coeffs@.len() == 0 ==> r.1@ == poly@,
            r.1@.len() == poly@.len(),
            coeffs@.len() > 0 ==> forall|j: int|
                0 <= j < r.1@.len() ==> (#[trigger] r.1@[j]).value() == combined_value(
                    crate::reference::values(poly@),
                    rows(intermediates@),
                    crate::reference::values(coeffs@),
                    j,
                    coeffs@.len(),
                ) % (F::order() as int),
    {
        let combined = combine(poly, &intermediates, coeffs);
        (intermediates, combined)
    }

    /// Evaluate polynomial at multiple points and compute witness polynomials in one GPU session.
    ///
    /// This is optimized for HyperKZG Phase 3 where we need:
    /// 1. Evaluations of all polynomials at [r, -r, r^2]
    /// 2. Linear combination with challenge powers
    /// 3. Witness polynomials for the combined polynomial at each point
    pub fn eval_and_witness_batch<'a>(
        &self,
        polys: &[&[F]],
        points: &'a [F],
        lc_coeffs: &'a [F],
    ) -> (r: EvalAndWitness<'a, F>)
        requires
            crate::poly_ops::same_len(crate::poly_ops::polys_view(polys@)),
            points@.len() > 0,
            polys@.len() == lc_coeffs@.len(),
            polys@[0]@.len() != 1,
            polys@[0]@.len() >= 2 ==> {
                &&& polys@.len() * points@.len() <= usize::MAX
                &&& points@.len() * (polys@[0]@.len() - 1) <= usize::MAX
            },
        ensures
            r.spec_session().wf(),
            r.spec_num_polys() == polys@.len(),
            polys@[0]@.len() == 0 ==> r.spec_session()@ == no_elements_plan::<F>(),
            polys@[0]@.len() >= 2 ==> {
                &&& r.spec_shape().wf()
                &&& r.spec_shape().poly_len == polys@[0]@.len()
                &&& r.spec_shape().num_points == points@.len()
                &&& r.spec_session()@ == eval_and_witness_plan(
                    crate::poly_ops::polys_view(polys@),
                    points@,
                    lc_coeffs@,
                    r.spec_shape(),
                )
            },
    {
        let poly_len: usize = polys[0].len();
        let num_polys: usize = polys.len();
        let num_points: usize = points.len();
        let flat_polys = flatten(polys);
        if poly_len == 0 {
            proof {
                crate::poly_ops::concat_len(crate::poly_ops::polys_view(polys@), 0);
                assert(flat_polys@ =~= Seq::empty());
            }
            let mut s: PolySession<'a, F> = Session::new();
            s.create_buffer_from(0, HostData::ScalarVec(flat_polys));
            assert(s@ =~~= no_elements_plan::<F>());
            let shape = WitnessShape { poly_len, num_points, chunk_size: 1, num_chunks: 0 };
            return EvalAndWitness { session: s, shape, num_polys };
        }
        let shape = WitnessShape::new(poly_len, num_points);
        assert(num_polys * num_points > 0) by (nonlinear_arith)
            requires
                num_polys > 0,
                num_points > 0,
        ;
        let total_evals: usize = num_polys * num_points;
        let total_witnesses: usize = num_points * (poly_len - 1);
        let carries_len: usize = num_points * shape.num_chunks;
        let t = WitnessSlots { poly: 4, witnesses: 5, carries: 6, propagated: 7, points: 1 };
        let mut s: PolySession<'a, F> = Session::new();
        // Upload all data
        s.create_buffer_from(0, HostData::ScalarVec(flat_polys));
        s.create_buffer_from(1, HostData::Scalars(points));
        s.create_buffer_from(2, HostData::Scalars(lc_coeffs));
        // Step 1: Batch evaluation
        s.create_buffer(3, Elem::Scalar, total_evals);
        s.launch(
            KernelId::EvalUnivariateBatch,
            div_ceil(total_evals, LOCAL_WORK_SIZE),
            LOCAL_WORK_SIZE,
            vec![
                Arg::Buffer(0),
                Arg::Buffer(1),
                Arg::Buffer(3),
                Arg::Word(num_polys as u32),
                Arg::Word(poly_len as u32),
                Arg::Word(num_points as u32),
            ],
        );
        s.read_buffer(3, Elem::Scalar, total_evals);
        // Step 2: Linear combination
        s.create_buffer(4, Elem::Scalar, poly_len);
        s.launch(
            KernelId::LinearCombine,
            div_ceil(poly_len, LOCAL_WORK_SIZE),
            LOCAL_WORK_SIZE,
            vec![
                Arg::Buffer(0),
                Arg::Buffer(2),
                Arg::Buffer(4),
                Arg::Word(num_polys as u32),
                Arg::Word(poly_len as u32),
            ],
        );
        s.read_buffer(4, Elem::Scalar, poly_len);
        // Step 3: Parallel batch witness computation (3-phase)
        s.create_buffer(5, Elem::Scalar, total_witnesses);
        s.create_buffer(6, Elem::Scalar, carries_len);
        launch_phase1(&mut s, t, shape);
        s.create_buffer(7, Elem::Scalar, carries_len);
        launch_phase2(&mut s, t, shape);
        launch_phase3(&mut s, t, shape);
        s.read_buffer(5, Elem::Scalar, total_witnesses);
        assert(s@ =~~= eval_and_witness_plan(
            crate::poly_ops::polys_view(polys@),
            points@,
            lc_coeffs@,
            shape,
        ));
        EvalAndWitness { session: s, shape, num_polys }
    }
}

impl<'a, F: Copy> EvalAndWitness<'a, F> {
    /// What the device has to do.
    pub closed spec fn spec_session(&self) -> PolySession<'a, F> {
        self.session
    }

    /// How the witness polynomials are cut into chunks.
    pub closed spec fn spec_shape(&self) -> WitnessShape {
        self.shape
    }

    /// The number of polynomials.
    pub closed spec fn spec_num_polys(&self) -> usize {
        self.num_polys
    }

    /// What the device has to do.
    pub fn session(&self) -> (r: &PolySession<'a, F>)
        ensures
            *r == self.spec_session(),
    {
        &self.session
    }

    /// How the witness polynomials are cut into chunks.
    pub fn shape(&self) -> (r: WitnessShape)
        ensures
            r == self.spec_shape(),
    {
        self.shape
    }

    /// The result, from what the device handed back: (evaluations[point][poly], combined_poly,
    /// witnesses[point]).
    pub fn finish(&self, flat_evals: &[F], combined_poly: Vec<F>, flat_witnesses: &[F]) -> (r: (
        Vec<Vec<F>>,
        Vec<F>,
        Vec<Vec<F>>,
    ))
        requires
            self.spec_shape().wf(),
            flat_evals@.len() == self.spec_shape().num_points * self.spec_num_polys(),
            flat_witnesses@.len() == self.spec_shape().total_witnesses(),
        ensures
            r.0@.len() == self.spec_shape().num_points,
            forall|i: int|
                0 <= i < self.spec_shape().num_points ==> (#[trigger] r.0@[i])@ == flat_evals@.subrange(
                    i * self.spec_num_polys(),
                    (i + 1) * self.spec_num_polys(),
                ),
            r.1 == combined_poly,
            r.2@.len() == self.spec_shape().num_points,
            forall|i: int|
                0 <= i < self.spec_shape().num_points ==> (#[trigger] r.2@[i])@
                    == flat_witnesses@.subrange(
                    i * self.spec_shape().witness_len(),
                    (i + 1) * self.spec_shape().witness_len(),
                ),
    {
        let evaluations = reshape(flat_evals, self.shape.num_points, self.num_polys);
        let witnesses = reshape(flat_witnesses, self.shape.num_points, self.shape.poly_len - 1);
        (evaluations, combined_poly, witnesses)
    }
}

} // verus!
