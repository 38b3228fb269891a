//! Commitments to several polynomials in one session.

use vstd::prelude::*;

use crate::combined_ops::Either;
use crate::commit_laws::MsmReport;
use crate::curve::GpuAffine;
use crate::field::PrimeField;
use crate::fused_commit::{launch_to_scalars, params, FusedPolyCommit};
use crate::fused_msm::{create_buffers, msm_counts, msm_offsets, msm_start, MsmSizes};
use crate::multiexp::SortedMsmParams;
use crate::session::{Cmd, DataView, Elem, HostData, Session};
use crate::sorted_msm::{BASES, SCALARS};
use crate::sorted_multiexp::MsmStage;

verus! {

/// The polynomial that is committed to.
pub const PADDED: usize = 19;

/// The length of the longest of some polynomials.
pub open spec fn longest<F>(polys: Seq<Seq<F>>) -> nat
    decreases polys.len(),
{
    if polys.len() == 0 {
        0
    } else {
        crate::arith::max_of(
            longest(polys.drop_last()) as int,
            polys.last().len() as int,
        ) as nat
    }
}

/// No polynomial is longer than the longest one.
pub proof fn longest_bounds<F>(polys: Seq<Seq<F>>, i: int)
    requires
        0 <= i < polys.len(),
    ensures
        polys[i].len() <= longest(polys),
    decreases polys.len(),
{
    if i < polys.len() - 1 {
        longest_bounds(polys.drop_last(), i);
        assert(polys.drop_last()[i] == polys[i]);
    }
}

/// A polynomial with zeros behind it.
pub open spec fn padded<F>(poly: Seq<F>, len: nat, zero: F) -> Seq<F> {
    poly + Seq::new((len - poly.len()) as nat, |i: int| zero)
}

/// The first stage of the round of a polynomial.
pub open spec fn batch_round_plan<F, B>(poly: Seq<F>, zero: F, p: SortedMsmParams) -> Seq<
    Cmd<F, B>,
> {
    seq![
        Cmd::Write {
            slot: PADDED,
            data: DataView::Scalars(padded(poly, p.n_bases as nat, zero)),
        },
        crate::fused_commit::to_scalars(PADDED, SCALARS, p.n_bases as nat),
    ] + crate::fused_msm::msm_start_plan(SCALARS, p, MsmSizes::zero().with(p))
}

/// What [`FusedPolyCommit::batch_commit`] starts with.
pub open spec fn batch_start_plan<F, B>(
    poly: Seq<F>,
    bases: Seq<B>,
    zero: F,
    p: SortedMsmParams,
) -> Seq<Cmd<F, B>> {
    let n = p.n_bases as nat;
    seq![
        Cmd::Upload { slot: BASES, data: DataView::Bases(bases.take(n as int)) },
        Cmd::Upload { slot: PADDED, data: DataView::Scalars(padded(Seq::empty(), n, zero)) },
        Cmd::Alloc { slot: SCALARS, elem: Elem::Scalar, len: n },
    ] + crate::fused_msm::buffers_plan(MsmSizes::zero().with(p)) + batch_round_plan(poly, zero, p)
}

/// A batch commit that is under way.
pub struct BatchCommit<'a, G: GpuAffine> {
    /// What the device has to do, up to where the next data is waited for.
    session: Session<'a, G::ScalarField, G::GpuRepr>,
    /// The polynomials.
    polys: &'a [&'a [G::ScalarField]],
    /// The zero of the field.
    zero: G::ScalarField,
    /// The MSM of each round.
    params: SortedMsmParams,
    /// The lengths of the shared buffers.
    sizes: MsmSizes,
    /// The current round, which is the index of the polynomial.
    round: usize,
    /// What is waited for.
    stage: MsmStage,
    /// The commitments of the rounds that are done.
    commitments: Vec<G::Group>,
}

impl<'a, G: GpuAffine> BatchCommit<'a, G> {
    /// What the device has to do, up to where the next data is waited for.
    pub closed spec fn spec_session(&self) -> Session<'a, G::ScalarField, G::GpuRepr> {
        self.session
    }

    /// The polynomials.
    pub closed spec fn spec_polys(&self) -> &'a [&'a [G::ScalarField]] {
        self.polys
    }

    /// The zero of the field.
    pub closed spec fn spec_zero(&self) -> G::ScalarField {
        self.zero
    }

    /// The MSM of each round.
    pub closed spec fn spec_params(&self) -> SortedMsmParams {
        self.params
    }

    /// The lengths of the shared buffers.
    pub closed spec fn spec_sizes(&self) -> MsmSizes {
        self.sizes
    }

    /// The current round, which is the index of the polynomial.
    pub closed spec fn spec_round(&self) -> usize {
        self.round
    }

    /// What is waited for.
    pub closed spec fn spec_stage(&self) -> MsmStage {
        self.stage
    }

    /// The commitments of the rounds that are done.
    pub closed spec fn spec_commitments(&self) -> Vec<G::Group> {
        self.commitments
    }

    /// What the device has to do, up to where the next data is waited for.
    pub fn session(&self) -> (r: &Session<'a, G::ScalarField, G::GpuRepr>)
        ensures
            *r == self.spec_session(),
    {
        &self.session
    }

    /// What is waited for.
    pub fn stage(&self) -> (r: MsmStage)
        ensures
            r == self.spec_stage(),
    {
        self.stage
    }

    /// The MSM of each round.
    pub fn params(&self) -> (r: SortedMsmParams)
        ensures
            r == self.spec_params(),
    {
        self.params
    }

    /// The session can be run, and holds what the next stage needs.
    pub open spec fn wf(&self) -> bool {
        let b = self.spec_session().buffers();
        &&& self.spec_session().wf()
        &&& self.spec_round() < self.spec_polys()@.len()
        &&& self.spec_zero().value() == 0
        &&& self.spec_params().fits()
        &&& self.spec_params().n_bases == longest(crate::poly_ops::polys_view(self.spec_polys()@))
        &&& self.spec_sizes() == MsmSizes::zero().with(self.spec_params())
        &&& self.spec_sizes().covers(self.spec_params())
        &&& crate::fused_msm::ready(b, self.spec_sizes())
        &&& b.contains_key(SCALARS)
        &&& b.contains_key(PADDED)
        &&& b[PADDED] == (Elem::Scalar, self.spec_params().n_bases as nat)
    }

    /// Whether two states belong to the same operation.
    pub open spec fn same_job(&self, other: &Self) -> bool {
        &&& self.spec_polys() == other.spec_polys()
        &&& self.spec_zero() == other.spec_zero()
        &&& self.spec_params() == other.spec_params()
        &&& self.spec_sizes() == other.spec_sizes()
        &&& self.spec_commitments() == other.spec_commitments()
    }

    /// Whether the session is that of an operation on these bases, given what the device reported so
    /// far: one report for each round that is done, and one for the current round once its offsets
    /// are known.
    pub open spec fn follows(&self, bases: Seq<G::GpuRepr>, reports: Seq<MsmReport>) -> bool {
        let p = self.spec_params();
        let s = crate::witness_commit::sizes_of(p);
        let i = self.spec_round() as nat;
        let log = crate::commit_laws::batch_log(
            crate::poly_ops::polys_view(self.spec_polys()@),
            bases,
            self.spec_zero(),
            p,
            reports,
            i,
        );
        match self.spec_stage() {
            MsmStage::Offsets => {
                &&& reports.len() == i
                &&& self.spec_session()@ == log
            },
            MsmStage::Counts { num_nonempty } => {
                &&& reports.len() == i + 1
                &&& reports.last().num_nonempty == num_nonempty
                &&& num_nonempty > 0
                &&& self.spec_session()@ == log + crate::fused_msm::msm_offsets_plan(
                    p,
                    s,
                    num_nonempty as nat,
                    reports.last().offsets,
                )
            },
            MsmStage::Result => {
                &&& reports.len() == i + 1
                &&& self.spec_session()@ == log + crate::commit_laws::msm_rest(
                    p,
                    s,
                    reports.last(),
                )
            },
        }
    }

    fn begin_round(&mut self)
        requires
            old(self).wf(),
        ensures
            final(self).wf(),
            final(self).same_job(old(self)),
            final(self).round == old(self).round,
            final(self).stage == MsmStage::Offsets,
            final(self).session@ == old(self).session@ + batch_round_plan::<
                G::ScalarField,
                G::GpuRepr,
            >(old(self).polys@[old(self).round as int]@, old(self).zero, old(self).params),
    {
        let n: usize = self.params.n_bases;
        let poly = self.polys[self.round];
        proof {
            longest_bounds(crate::poly_ops::polys_view(self.polys@), self.round as int);
        }
        let ghost before = self.session@;
        let ghost want = padded(poly@, n as nat, self.zero);
        // Build the zero-padded polynomial
        let mut data: Vec<G::ScalarField> = vstd::slice::slice_to_vec(poly);
        assert(data@ =~= want.take(data@.len() as int));
        while data.len() < n
            invariant
                poly@.len() <= data@.len() <= n,
                want == padded(poly@, n as nat, self.zero),
                want.len() == n,
                data@ == want.take(data@.len() as int),
            decreases n - data@.len(),
        {
            let ghost k = data@.len() as int;
            data.push(self.zero);
            assert(data@ =~= want.take(k + 1));
        }
        assert(want.take(n as int) =~= want);
        self.session.write_buffer(PADDED, HostData::ScalarVec(data));
        // Convert Montgomery to standard form on the device
        launch_to_scalars(&mut self.session, PADDED, SCALARS, n);
        msm_start(&mut self.session, SCALARS, self.params, self.sizes);
        self.stage = MsmStage::Offsets;
        assert(self.session@ =~= before + batch_round_plan::<G::ScalarField, G::GpuRepr>(
            poly@,
            self.zero,
            self.params,
        ));
    }

    /// Go on with the number of buckets that are not empty, and the offsets of the buckets.
    pub fn resume_with_offsets(&mut self, num_nonempty: u32, offsets: Vec<u32>)
        requires
            old(self).wf(),
            old(self).spec_stage() == MsmStage::Offsets,
            offsets@.len() == old(self).spec_sizes().buckets,
        ensures
            final(self).wf(),
            final(self).same_job(old(self)),
            final(self).spec_round() == old(self).spec_round(),
            final(self).spec_stage() == crate::fused_commit::offsets_stage(num_nonempty),
            final(self).spec_session()@ == old(self).spec_session()@ + crate::fused_msm::msm_offsets_plan::<
                G::ScalarField,
                G::GpuRepr,
            >(old(self).spec_params(), old(self).spec_sizes(), num_nonempty as nat, offsets@),
            forall|bases: Seq<G::GpuRepr>, reports: Seq<MsmReport>|
                #[trigger] old(self).follows(bases, reports) ==> final(self).follows(
                    bases,
                    reports.push(MsmReport::of_offsets(num_nonempty as nat, offsets@)),
                ),
    {
        let ghost report = MsmReport::of_offsets(num_nonempty as nat, offsets@);
        msm_offsets(&mut self.session, self.params, self.sizes, num_nonempty, offsets);
        if num_nonempty > 0 {
            self.stage = MsmStage::Counts { num_nonempty: num_nonempty as usize };
        } else {
            self.stage = MsmStage::Result;
        }
        proof {
            assert forall|bases: Seq<G::GpuRepr>, reports: Seq<MsmReport>| #[trigger]
                old(self).follows(bases, reports) implies self.follows(
                bases,
                reports.push(report),
            ) by {
                let polys = crate::poly_ops::polys_view(self.polys@);
                let i = self.round as nat;
                let more = reports.push(report);
                assert(more.take(i as int) =~= reports.take(i as int));
                crate::commit_laws::batch_log_of_earlier(
                    polys,
                    bases,
                    self.zero,
                    self.params,
                    reports,
                    more,
                    i,
                );
            }
        }
    }

    /// Go on with the counts of the buckets and the list of those that are not empty.
    pub fn resume_with_counts(&mut self, counts: &[u32], ids: &[u32])
        requires
            old(self).wf(),
            counts@.len() == old(self).spec_sizes().buckets,
            ids@.len() == old(self).spec_sizes().buckets,
            old(self).spec_stage() matches MsmStage::Counts { num_nonempty }
                && crate::dispatch::listed(
                counts@.take(old(self).spec_params().total_buckets() as int),
                ids@.take(old(self).spec_params().total_buckets() as int),
                num_nonempty as nat,
            ),
        ensures
            final(self).wf(),
            final(self).same_job(old(self)),
            final(self).spec_round() == old(self).spec_round(),
            final(self).spec_stage() == MsmStage::Result,
            old(self).spec_stage() matches MsmStage::Counts { num_nonempty } ==> final(self).spec_session()@
                == old(self).spec_session()@ + crate::fused_msm::msm_counts_plan::<
                G::ScalarField,
                G::GpuRepr,
            >(old(self).spec_params(), num_nonempty as nat, counts@, ids@),
            forall|bases: Seq<G::GpuRepr>, reports: Seq<MsmReport>|
                #[trigger] old(self).follows(bases, reports) ==> final(self).follows(
                    bases,
                    crate::commit_laws::last_with_counts(reports, counts@, ids@),
                ),
    {
        match self.stage {
            MsmStage::Counts { num_nonempty } => {
                msm_counts(&mut self.session, self.params, self.sizes, num_nonempty, counts, ids);
                self.stage = MsmStage::Result;
            },
            _ => {},
        }
        proof {
            assert forall|bases: Seq<G::GpuRepr>, reports: Seq<MsmReport>| #[trigger]
                old(self).follows(bases, reports) implies self.follows(
                bases,
                crate::commit_laws::last_with_counts(reports, counts@, ids@),
            ) by {
                let polys = crate::poly_ops::polys_view(self.polys@);
                let i = self.round as nat;
                let more = crate::commit_laws::last_with_counts(reports, counts@, ids@);
                assert(more.take(i as int) =~= reports.take(i as int));
                crate::commit_laws::batch_log_of_earlier(
                    polys,
                    bases,
                    self.zero,
                    self.params,
                    reports,
                    more,
                    i,
                );
                assert(self.session@ =~= crate::commit_laws::batch_log(
                    polys,
                    bases,
                    self.zero,
                    self.params,
                    more,
                    i,
                ) + crate::commit_laws::msm_rest(
                    self.params,
                    crate::witness_commit::sizes_of(self.params),
                    more.last(),
                ));
            }
        }
    }

    /// Take the commitment of the current round, and go on with the next polynomial. After the last
    /// one these are the commitments of all rounds, in order.
    pub fn finish_round(self, commitment: G::Group) -> (r: Either<Vec<G::Group>, Self>)
        requires
            self.wf(),
            self.spec_stage() == MsmStage::Result,
        ensures
            self.spec_round() + 1 == self.spec_polys()@.len() ==> (r matches Either::Done(d) && d@
                == self.spec_commitments()@.push(commitment)),
            self.spec_round() + 1 < self.spec_polys()@.len() ==> (r matches Either::Run(job) && {
                &&& job.wf()
                &&& job.spec_polys() == self.spec_polys()
                &&& job.spec_zero() == self.spec_zero()
                &&& job.spec_params() == self.spec_params()
                &&& job.spec_sizes() == self.spec_sizes()
                &&& job.spec_round() == self.spec_round() + 1
                &&& job.spec_stage() == MsmStage::Offsets
                &&& job.spec_commitments()@ == self.spec_commitments()@.push(commitment)
                &&& job.spec_session()@ == self.spec_session()@ + batch_round_plan::<
                    G::ScalarField,
                    G::GpuRepr,
                >(self.spec_polys()@[self.spec_round() + 1]@, self.spec_zero(), self.spec_params())
                &&& forall|bases: Seq<G::GpuRepr>, reports: Seq<MsmReport>|
                    #[trigger] self.follows(bases, reports) ==> job.follows(bases, reports)
            }),
    {
        let mut job = self;
        job.commitments.push(commitment);
        assert(job.polys.len() <= usize::MAX);
        if job.round + 1 == job.polys.len() {
            return Either::Done(job.commitments);
        }
        job.next_round();
        Either::Run(job)
    }

    fn next_round(&mut self)
        requires
            old(self).wf(),
            old(self).stage == MsmStage::Result,
            old(self).round + 1 < old(self).polys@.len(),
        ensures
            final(self).wf(),
            final(self).same_job(old(self)),
            final(self).round == old(self).round + 1,
            final(self).stage == MsmStage::Offsets,
            final(self).session@ == old(self).session@ + batch_round_plan::<
                G::ScalarField,
                G::GpuRepr,
            >(old(self).polys@[old(self).round + 1]@, old(self).zero, old(self).params),
    {
        assert(self.polys.len() <= usize::MAX);
        self.round = self.round + 1;
        self.begin_round();
    }
}

/// The length of the longest of some polynomials.
pub fn max_len<F>(polys: &[&[F]]) -> (r: usize)
    ensures
        r == longest(crate::poly_ops::polys_view(polys@)),
{
    let ghost views = crate::poly_ops::polys_view(polys@);
    let mut max: usize = 0;
    let mut i: usize = 0;
    assert(views.take(0) =~= Seq::empty());
    while i < polys.len()
        invariant
            i <= polys@.len(),
            views == crate::poly_ops::polys_view(polys@),
            max == longest(views.take(i as int)),
        decreases polys@.len() - i,
    {
        let len: usize = polys[i].len();
        if len > max {
            max = len;
        }
        assert(views.take(i + 1).drop_last() =~= views.take(i as int));
        i = i + 1;
    }
    assert(views.take(i as int) =~= views);
    max
}

impl<G: GpuAffine> FusedPolyCommit<G> {
    /// Batch commit: computes MSM commitments for multiple polynomials in a single GPU session.
    ///
    /// Uses the sort-based MSM pipeline. Polynomials that are shorter than the longest one are
    /// padded with zeros.
    ///
    /// # Arguments
    /// * `polys` - Polynomial evaluations in Montgomery form
    /// * `bases` - Pre-converted GPU bases (at least as long as each poly)
    ///
    /// One commitment (projective point) is computed per polynomial.
    pub fn batch_commit<'a>(
        &self,
        polys: &'a [&'a [G::ScalarField]],
        bases: &'a [G::GpuRepr],
    ) -> (r: Either<Vec<G::Group>, BatchCommit<'a, G>>)
        requires
            polys@.len() > 0 ==> {
                let n = longest(crate::poly_ops::polys_view(polys@));
                &&& n > 0
                &&& bases@.len() >= n
                &&& self.spec_work_units() > 0
                &&& crate::fused_commit::commit_params(n, self.spec_work_units()).total_pairs()
                    <= usize::MAX
            },
        ensures
            polys@.len() == 0 ==> (r matches Either::Done(d) && d@.len() == 0),
            polys@.len() > 0 ==> (r matches Either::Run(job) && {
                &&& job.wf()
                &&& job.spec_polys()@ == polys@
                &&& job.spec_params() == crate::fused_commit::commit_params(
                    longest(crate::poly_ops::polys_view(polys@)),
                    self.spec_work_units(),
                )
                &&& job.spec_round() == 0
                &&& job.spec_stage() == MsmStage::Offsets
                &&& job.spec_commitments()@.len() == 0
                &&& job.spec_session()@ == batch_start_plan::<G::ScalarField, G::GpuRepr>(
                    polys@[0]@,
                    bases@,
                    job.spec_zero(),
                    job.spec_params(),
                )
                &&& job.follows(bases@, Seq::empty())
            }),
    {
        if polys.len() == 0 {
            return Either::Done(Vec::new());
        }
        let n: usize = max_len(polys);
        let p = params(n, self.work_units());
        let sizes = MsmSizes::none().grown(p);
        proof {
            p.bounds();
        }
        let zero = <G::ScalarField as PrimeField>::zero();
        let ghost nothing = padded(Seq::<G::ScalarField>::empty(), n as nat, zero);
        let mut scratch: Vec<G::ScalarField> = Vec::new();
        while scratch.len() < n
            invariant
                scratch@.len() <= n,
                forall|i: int| 0 <= i < scratch@.len() ==> #[trigger] scratch@[i] == zero,
            decreases n - scratch@.len(),
        {
            scratch.push(zero);
        }
        assert(scratch@ =~= nothing);
        let first_bases = vstd::slice::slice_subrange(bases, 0, n);
        assert(first_bases@ =~= bases@.take(n as int));
        let mut session: Session<'a, G::ScalarField, G::GpuRepr> = Session::new();
        // Upload bases once (for all MSMs)
        session.create_buffer_from(BASES, HostData::Bases(first_bases));
        // Reusable buffer for one polynomial at a time
        session.create_buffer_from(PADDED, HostData::ScalarVec(scratch));
        session.create_buffer(SCALARS, Elem::Scalar, n);
        let ghost head = session@;
        assert(session.buffers().contains_key(PADDED) && session.buffers()[PADDED] == (
            Elem::Scalar,
            n as nat,
        ));
        assert(session.buffers().contains_key(SCALARS));
        create_buffers(&mut session, sizes);
        let mut job = BatchCommit {
            session,
            polys,
            zero,
            params: p,
            sizes,
            round: 0,
            stage: MsmStage::Offsets,
            commitments: Vec::new(),
        };
        proof {
            let b = job.session.buffers();
            assert(b.contains_key(PADDED) && b[PADDED] == (Elem::Scalar, n as nat));
            assert(b.contains_key(SCALARS));
        }
        job.begin_round();
        proof {
            assert(head =~~= seq![
                Cmd::Upload { slot: BASES, data: DataView::Bases(bases@.take(n as int)) },
                Cmd::Upload { slot: PADDED, data: DataView::Scalars(nothing) },
                Cmd::Alloc { slot: SCALARS, elem: Elem::Scalar, len: n as nat },
            ]);
        }
        Either::Run(job)
    }
}

/// The bases go to the device once, at the very start, and serve all polynomials.
pub proof fn bases_serve_all_polys<F, B>(
    poly: Seq<F>,
    bases: Seq<B>,
    zero: F,
    p: SortedMsmParams,
    other: Seq<F>,
)
    ensures
        ({
            let start = batch_start_plan::<F, B>(poly, bases, zero, p);
            &&& start[0] == (Cmd::<F, B>::Upload {
                slot: BASES,
                data: DataView::Bases(bases.take(p.n_bases as int)),
            })
            &&& forall|j: int|
                0 < j < start.len() ==> !crate::session::loads_bases(#[trigger] start[j])
        }),
        crate::session::never_loads_bases(batch_round_plan::<F, B>(other, zero, p)),
{
    let s = MsmSizes::zero().with(p);
    crate::fused_msm::msm_keeps_data::<F, B>(
        SCALARS,
        p,
        s,
        0,
        Seq::empty(),
        Seq::empty(),
        Seq::empty(),
    );
    round_loads_no_bases::<F, B>(other, zero, p);
    round_loads_no_bases::<F, B>(poly, zero, p);
    let buffers = crate::fused_msm::buffers_plan::<F, B>(s);
    let round = batch_round_plan::<F, B>(poly, zero, p);
    let start = batch_start_plan::<F, B>(poly, bases, zero, p);
    assert forall|j: int| 0 < j < start.len() implies !crate::session::loads_bases(
        #[trigger] start[j],
    ) by {
        if 3 <= j < 3 + buffers.len() {
            assert(start[j] == buffers[j - 3]);
        } else if j >= 3 {
            assert(start[j] == round[j - 3 - buffers.len()]);
        }
    }
}

proof fn round_loads_no_bases<F, B>(poly: Seq<F>, zero: F, p: SortedMsmParams)
    ensures
        crate::session::never_loads_bases(batch_round_plan::<F, B>(poly, zero, p)),
{
    let s = MsmSizes::zero().with(p);
    crate::fused_msm::msm_keeps_data::<F, B>(
        SCALARS,
        p,
        s,
        0,
        Seq::empty(),
        Seq::empty(),
        Seq::empty(),
    );
    let msm = crate::fused_msm::msm_start_plan::<F, B>(SCALARS, p, s);
    let round = batch_round_plan::<F, B>(poly, zero, p);
    assert forall|j: int| 0 <= j < round.len() implies !crate::session::loads_bases(
        #[trigger] round[j],
    ) by {
        if j >= 2 {
            assert(round[j] == msm[j - 2]);
        }
    }
}

} // verus!
