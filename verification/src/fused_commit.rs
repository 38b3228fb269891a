//! Polynomial operations fused with commitments.
//!
//! The commitments are sort-based MSMs whose launches depend on what the device reports, so each
//! operation is planned in rounds, one for each commitment, and each round in stages.

use std::marker::PhantomData;

use vstd::prelude::*;

use crate::arith::div_ceil;
use crate::combined_ops::Either;
use crate::commit_laws::MsmReport;
use crate::curve::GpuAffine;
use crate::error::EcResult;
use crate::fused_msm::{
    create_buffers, msm_counts, msm_offsets, msm_start, MsmSizes, BN254_SCALAR_BITS,
    FIELD_WORK_SIZE,
};
use crate::multiexp::{window_size, SortedMsmParams};
use crate::opencl::Program;
use crate::session::{Arg, Cmd, DataView, Elem, HostData, KernelId, Session};
use crate::sorted_msm::{BASES, SCALARS};
use crate::sorted_multiexp::MsmStage;

verus! {

/// Result of fused fix_vars and commit operation.
#[derive(Debug)]
pub struct FixVarsAndCommitResult<F, G> {
    /// Intermediate polynomials from fix_var iterations.
    pub intermediates: Vec<Vec<F>>,
    /// Commitments to each intermediate polynomial.
    pub commitments: Vec<G>,
}

/// Fused GPU operations for HyperKZG that combine polynomial operations with MSM.
///
/// This struct keeps both polynomial data and curve bases on GPU between operations,
/// minimizing transfers for the commit-open flow.
#[derive(Debug)]
pub struct FusedPolyCommit<G: GpuAffine> {
    program: Program,
    work_units: usize,
    _phantom: PhantomData<G>,
}

/// The parameters of the MSM that commits to a polynomial of `n` elements.
pub open spec fn commit_params(n: nat, work_units: nat) -> SortedMsmParams {
    crate::multiexp::params_for(
        n,
        BN254_SCALAR_BITS as nat,
        crate::multiexp::window_size_for(n, work_units),
    )
}

/// The parameters of the MSMs that commit to a polynomial of `len` elements after each of `k`
/// variables has been fixed.
pub open spec fn round_params(len: nat, work_units: nat, k: nat) -> Seq<SortedMsmParams> {
    Seq::new(
        k,
        |i: int| commit_params(crate::poly_ops::halved(len, (i + 1) as nat), work_units),
    )
}

pub(crate) fn params(n: usize, work_units: usize) -> (r: SortedMsmParams)
    requires
        work_units > 0,
    ensures
        r.wf(),
        r == commit_params(n as nat, work_units as nat),
        r.n_bases == n,
        r.effective_bits == BN254_SCALAR_BITS,
{
    SortedMsmParams::with_window_size(n, BN254_SCALAR_BITS, window_size(n, work_units))
}

/// The challenges.
pub const CHALLENGES: usize = 19;

/// The slot of the polynomial after `i` variables have been fixed.
pub open spec fn poly_slot(i: nat) -> usize {
    (20 + i) as usize
}

/// The number of thread groups for `n` field elements.
pub open spec fn groups(n: nat) -> nat {
    crate::sorted_msm::groups(n, FIELD_WORK_SIZE)
}

/// Convert field elements to standard form.
pub open spec fn to_scalars<F, B>(from: usize, to: usize, n: nat) -> Cmd<F, B> {
    Cmd::Launch {
        kernel: KernelId::ToScalarBytes,
        global: groups(n),
        local: FIELD_WORK_SIZE as nat,
        args: seq![Arg::Buffer(from), Arg::Buffer(to), Arg::Word(n as u32)],
    }
}

/// Fix variable `i`.
pub open spec fn fix_indexed<F, B>(from: usize, to: usize, challenges: usize, n: nat, i: nat) -> Cmd<
    F,
    B,
> {
    Cmd::Launch {
        kernel: KernelId::FixVarIndexed,
        global: groups(n),
        local: FIELD_WORK_SIZE as nat,
        args: seq![
            Arg::Buffer(from),
            Arg::Buffer(to),
            Arg::Buffer(challenges),
            Arg::Word(n as u32),
            Arg::Word(i as u32),
        ],
    }
}

pub(crate) fn launch_to_scalars<'a, F, B>(
    session: &mut Session<'a, F, B>,
    from: usize,
    to: usize,
    n: usize,
)
    requires
        old(session).wf(),
        old(session).buffers().contains_key(from),
        old(session).buffers().contains_key(to),
    ensures
        final(session).wf(),
        final(session)@ == old(session)@.push(to_scalars::<F, B>(from, to, n as nat)),
        final(session).buffers() == old(session).buffers(),
{
    session.launch(
        KernelId::ToScalarBytes,
        div_ceil(n, FIELD_WORK_SIZE),
        FIELD_WORK_SIZE,
        vec![Arg::Buffer(from), Arg::Buffer(to), Arg::Word(n as u32)],
    );
    assert(session@.last() =~~= to_scalars::<F, B>(from, to, n as nat));
}

pub(crate) fn launch_fix_indexed<'a, F, B>(
    session: &mut Session<'a, F, B>,
    from: usize,
    to: usize,
    challenges: usize,
    n: usize,
    i: usize,
)
    requires
        old(session).wf(),
        old(session).buffers().contains_key(from),
        old(session).buffers().contains_key(to),
        old(session).buffers().contains_key(challenges),
    ensures
        final(session).wf(),
        final(session)@ == old(session)@.push(
            fix_indexed::<F, B>(from, to, challenges, n as nat, i as nat),
        ),
        final(session).buffers() == old(session).buffers(),
{
    session.launch(
        KernelId::FixVarIndexed,
        div_ceil(n, FIELD_WORK_SIZE),
        FIELD_WORK_SIZE,
        vec![
            Arg::Buffer(from),
            Arg::Buffer(to),
            Arg::Buffer(challenges),
            Arg::Word(n as u32),
            Arg::Word(i as u32),
        ],
    );
    assert(session@.last() =~~= fix_indexed::<F, B>(from, to, challenges, n as nat, i as nat));
}

/// The first stage of round `i` of [`FusedPolyCommit::fix_vars_and_commit`].
pub open spec fn fix_round_plan<F, B>(i: nat, p: SortedMsmParams, s: MsmSizes) -> Seq<Cmd<F, B>> {
    let n = p.n_bases as nat;
    seq![
        Cmd::Alloc { slot: poly_slot(i + 1), elem: Elem::Scalar, len: n },
        fix_indexed(poly_slot(i), poly_slot(i + 1), CHALLENGES, n, i),
        Cmd::Read { slot: poly_slot(i + 1), elem: Elem::Scalar, len: n },
        Cmd::Alloc { slot: SCALARS, elem: Elem::Scalar, len: n },
        to_scalars(poly_slot(i + 1), SCALARS, n),
    ] + crate::fused_msm::msm_start_plan(SCALARS, p, s)
}

/// What round `i` leaves behind.
pub open spec fn fix_round_end<F, B>(i: nat) -> Seq<Cmd<F, B>> {
    seq![Cmd::Free { slot: SCALARS }, Cmd::Free { slot: poly_slot(i) }]
}

/// What [`FusedPolyCommit::fix_vars_and_commit`] starts with.
pub open spec fn fix_start_plan<F, B>(
    poly: Seq<F>,
    challenges: Seq<F>,
    bases: Seq<B>,
    s: MsmSizes,
    p: SortedMsmParams,
) -> Seq<Cmd<F, B>> {
    seq![
        Cmd::Upload { slot: poly_slot(0), data: DataView::Scalars(poly) },
        Cmd::Upload { slot: BASES, data: DataView::Bases(bases) },
        Cmd::Upload { slot: CHALLENGES, data: DataView::Scalars(challenges) },
    ] + crate::fused_msm::buffers_plan(s) + fix_round_plan(0, p, s)
}

/// What comes after the offsets of a round are known: the rest of the MSM if no bucket holds
/// anything, and otherwise the question what is in the buckets.
pub open spec fn offsets_stage(num_nonempty: u32) -> MsmStage {
    if num_nonempty > 0 {
        MsmStage::Counts { num_nonempty: num_nonempty as usize }
    } else {
        MsmStage::Result
    }
}

/// A fused fix_vars + commit operation that is under way.
pub struct FixVarsAndCommit<'a, G: GpuAffine> {
    /// What the device has to do, up to where the next data is waited for.
    session: Session<'a, G::ScalarField, G::GpuRepr>,
    /// The length of the polynomial.
    initial_len: usize,
    /// The number of work units.
    work_units: usize,
    /// The number of rounds.
    num_challenges: usize,
    /// The lengths of the shared buffers.
    sizes: MsmSizes,
    /// The current round.
    round: usize,
    /// What is waited for.
    stage: MsmStage,
    /// The intermediate polynomials of the rounds that are done.
    intermediates: Vec<Vec<G::ScalarField>>,
    /// The commitments of the rounds that are done.
    commitments: Vec<G::Group>,
}

impl<'a, G: GpuAffine> FixVarsAndCommit<'a, G> {
    /// What the device has to do, up to where the next data is waited for.
    pub closed spec fn spec_session(&self) -> Session<'a, G::ScalarField, G::GpuRepr> {
        self.session
    }

    /// The length of the polynomial.
    pub closed spec fn spec_initial_len(&self) -> usize {
        self.initial_len
    }

    /// The number of work units.
    pub closed spec fn spec_work_units(&self) -> usize {
        self.work_units
    }

    /// The number of rounds.
    pub closed spec fn spec_num_challenges(&self) -> usize {
        self.num_challenges
    }

    /// The lengths of the shared buffers.
    pub closed spec fn spec_sizes(&self) -> MsmSizes {
        self.sizes
    }

    /// The current round.
    pub closed spec fn spec_round(&self) -> usize {
        self.round
    }

    /// What is waited for.
    pub closed spec fn spec_stage(&self) -> MsmStage {
        self.stage
    }

    /// The intermediate polynomials of the rounds that are done.
    pub closed spec fn spec_intermediates(&self) -> Vec<Vec<G::ScalarField>> {
        self.intermediates
    }

    /// The commitments of the rounds that are done.
    pub closed spec fn spec_commitments(&self) -> Vec<G::Group> {
        self.commitments
    }

    /// What the device has to do, up to where the next data is waited for.
    pub fn session(&self) -> (r: &Session<'a, G::ScalarField, G::GpuRepr>)
        ensures
            *r == self.spec_session(),
    {
        &self.session
    }

    /// What is waited for.
    pub fn stage(&self) -> (r: MsmStage)
        ensures
            r == self.spec_stage(),
    {
        self.stage
    }

    /// The MSM of the current round.
    pub open spec fn current(&self) -> SortedMsmParams {
        commit_params(
            crate::poly_ops::halved(self.spec_initial_len() as nat, (self.spec_round() + 1) as nat),
            self.spec_work_units() as nat,
        )
    }

    /// What holds of the numbers.
    pub open spec fn numbers_ok(&self) -> bool {
        let ps = round_params(
            self.spec_initial_len() as nat,
            self.spec_work_units() as nat,
            self.spec_num_challenges() as nat,
        );
        &&& self.spec_work_units() > 0
        &&& self.spec_initial_len() >= 1
        &&& self.spec_round() < self.spec_num_challenges()
        &&& self.spec_num_challenges() <= crate::arith::log2(self.spec_initial_len() as nat)
        &&& self.spec_sizes() == MsmSizes::of(ps)
        &&& forall|i: int| 0 <= i < ps.len() ==> (#[trigger] ps[i]).fits()
    }

    /// The session can be run, and holds what the next stage needs.
    pub open spec fn wf(&self) -> bool {
        let b = self.spec_session().buffers();
        &&& self.numbers_ok()
        &&& self.spec_session().wf()
        &&& crate::fused_msm::ready(b, self.spec_sizes())
        &&& b.contains_key(CHALLENGES)
        &&& b.contains_key(poly_slot((self.spec_round() + 1) as nat))
        &&& !(self.spec_stage() is Result) ==> b.contains_key(SCALARS) && b.contains_key(
            poly_slot(self.spec_round() as nat),
        )
    }

    /// The MSM of the current round.
    pub fn msm(&self) -> (p: SortedMsmParams)
        requires
            self.numbers_ok(),
        ensures
            p == self.current(),
            p.fits(),
            self.spec_sizes().covers(p),
    {
        let mut len: usize = self.initial_len;
        let mut i: usize = 0;
        while i < self.round + 1
            invariant
                i <= self.round + 1,
                self.numbers_ok(),
                len == crate::poly_ops::halved(self.initial_len as nat, i as nat),
            decreases self.round + 1 - i,
        {
            len = len / 2;
            i = i + 1;
        }
        proof {
            let ps = round_params(
                self.initial_len as nat,
                self.work_units as nat,
                self.num_challenges as nat,
            );
            assert(ps[self.round as int] == self.current());
            crate::fused_msm::sizes_cover_all(ps);
        }
        params(len, self.work_units)
    }

    /// Whether the session is that of an operation on these data, given what the device reported so
    /// far: one report for each round that is done, and one for the current round once its offsets
    /// are known.
    pub open spec fn follows(
        &self,
        poly: Seq<G::ScalarField>,
        challenges: Seq<G::ScalarField>,
        bases: Seq<G::GpuRepr>,
        reports: Seq<MsmReport>,
    ) -> bool {
        let p = self.current();
        let s = self.spec_sizes();
        let i = self.spec_round() as nat;
        let log = crate::commit_laws::fix_log(
            poly,
            challenges,
            bases,
            self.spec_work_units() as nat,
            s,
            reports,
            i,
        );
        &&& poly.len() == self.spec_initial_len()
        &&& match self.spec_stage() {
            MsmStage::Offsets => {
                &&& reports.len() == i
                &&& self.spec_session()@ == log
            },
            MsmStage::Counts { num_nonempty } => {
                &&& reports.len() == i + 1
                &&& reports.last().num_nonempty == num_nonempty
                &&& num_nonempty > 0
                &&& self.spec_session()@ == log + crate::fused_msm::msm_offsets_plan(
                    p,
                    s,
                    num_nonempty as nat,
                    reports.last().offsets,
                )
            },
            MsmStage::Result => {
                &&& reports.len() == i + 1
                &&& self.spec_session()@ == log + crate::commit_laws::msm_rest(
                    p,
                    s,
                    reports.last(),
                ) + fix_round_end(i)
            },
        }
    }

    /// Start the current round.
    fn begin_round(&mut self)
        requires
            old(self).numbers_ok(),
            old(self).session.wf(),
            crate::fused_msm::ready(old(self).session.buffers(), old(self).sizes),
            old(self).session.buffers().contains_key(CHALLENGES),
            old(self).session.buffers().contains_key(poly_slot(old(self).round as nat)),
        ensures
            final(self).wf(),
            final(self).stage == MsmStage::Offsets,
            final(self).same_job(old(self)),
            final(self).round == old(self).round,
            final(self).session@ == old(self).session@ + fix_round_plan::<
                G::ScalarField,
                G::GpuRepr,
            >(old(self).round as nat, old(self).current(), old(self).sizes),
    {
        let p = self.msm();
        let i: usize = self.round;
        proof {
            log_is_small(self.initial_len);
        }
        let n: usize = p.n_bases;
        let ghost before = self.session@;
        self.session.create_buffer(20 + i + 1, Elem::Scalar, n);
        launch_fix_indexed(&mut self.session, 20 + i, 20 + i + 1, CHALLENGES, n, i);
        // Download intermediate (needed for Phase 3 of HyperKZG)
        self.session.read_buffer(20 + i + 1, Elem::Scalar, n);
        // Convert Fr from Montgomery to standard form on the device
        self.session.create_buffer(SCALARS, Elem::Scalar, n);
        launch_to_scalars(&mut self.session, 20 + i + 1, SCALARS, n);
        msm_start(&mut self.session, SCALARS, p, self.sizes);
        self.stage = MsmStage::Offsets;
        assert(self.session@ =~= before + fix_round_plan::<G::ScalarField, G::GpuRepr>(
            i as nat,
            p,
            self.sizes,
        ));
    }

    /// Whether two states belong to the same operation.
    pub open spec fn same_job(&self, other: &Self) -> bool {
        &&& self.spec_initial_len() == other.spec_initial_len()
        &&& self.spec_work_units() == other.spec_work_units()
        &&& self.spec_num_challenges() == other.spec_num_challenges()
        &&& self.spec_sizes() == other.spec_sizes()
        &&& self.spec_intermediates() == other.spec_intermediates()
        &&& self.spec_commitments() == other.spec_commitments()
    }

    /// Go on with the number of buckets that are not empty, and the offsets of the buckets.
    pub fn resume_with_offsets(&mut self, num_nonempty: u32, offsets: Vec<u32>)
        requires
            old(self).wf(),
            old(self).spec_stage() == MsmStage::Offsets,
            offsets@.len() == old(self).spec_sizes().buckets,
        ensures
            final(self).wf(),
            final(self).same_job(old(self)),
            final(self).spec_round() == old(self).spec_round(),
            final(self).spec_stage() == offsets_stage(num_nonempty),
            final(self).spec_session()@ == old(self).spec_session()@ + crate::fused_msm::msm_offsets_plan::<
                G::ScalarField,
                G::GpuRepr,
            >(old(self).current(), old(self).spec_sizes(), num_nonempty as nat, offsets@) + (if num_nonempty
                > 0 {
                Seq::empty()
            } else {
                fix_round_end(old(self).spec_round() as nat)
            }),
            forall|
                poly: Seq<G::ScalarField>,
                challenges: Seq<G::ScalarField>,
                bases: Seq<G::GpuRepr>,
                reports: Seq<MsmReport>,
            |
                #[trigger] old(self).follows(poly, challenges, bases, reports) ==> final(self).follows(
                    poly,
                    challenges,
                    bases,
                    reports.push(MsmReport::of_offsets(num_nonempty as nat, offsets@)),
                ),
    {
        let p = self.msm();
        let ghost report = MsmReport::of_offsets(num_nonempty as nat, offsets@);
        proof {
            log_is_small(self.initial_len);
        }
        msm_offsets(&mut self.session, p, self.sizes, num_nonempty, offsets);
        if num_nonempty > 0 {
            self.stage = MsmStage::Counts { num_nonempty: num_nonempty as usize };
        } else {
            self.end_round();
        }
        assert(self.session@ =~= old(self).session@ + crate::fused_msm::msm_offsets_plan::<
            G::ScalarField,
            G::GpuRepr,
        >(p, old(self).sizes, num_nonempty as nat, offsets@) + (if num_nonempty > 0 {
            Seq::empty()
        } else {
            fix_round_end(old(self).round as nat)
        }));
        proof {
            assert forall|
                poly: Seq<G::ScalarField>,
                challenges: Seq<G::ScalarField>,
                bases: Seq<G::GpuRepr>,
                reports: Seq<MsmReport>,
            | #[trigger] old(self).follows(poly, challenges, bases, reports) implies self.follows(
                poly,
                challenges,
                bases,
                reports.push(report),
            ) by {
                let i = self.round as nat;
                let more = reports.push(report);
                assert(more.take(i as int) =~= reports.take(i as int));
                crate::commit_laws::fix_log_of_earlier(
                    poly,
                    challenges,
                    bases,
                    self.work_units as nat,
                    self.sizes,
                    reports,
                    more,
                    i,
                );
                if num_nonempty == 0 {
                    let log = crate::commit_laws::fix_log(
                        poly,
                        challenges,
                        bases,
                        self.work_units as nat,
                        self.sizes,
                        more,
                        i,
                    );
                    assert(self.session@ =~= log + crate::commit_laws::msm_rest(
                        p,
                        self.sizes,
                        report,
                    ) + fix_round_end(i));
                }
            }
        }
    }

    fn end_round(&mut self)
        requires
            old(self).wf(),
            !(old(self).stage is Result),
        ensures
            final(self).wf(),
            final(self).same_job(old(self)),
            final(self).round == old(self).round,
            final(self).stage == MsmStage::Result,
            final(self).session@ == old(self).session@ + fix_round_end::<
                G::ScalarField,
                G::GpuRepr,
            >(old(self).round as nat),
    {
        proof {
            log_is_small(self.initial_len);
        }
        self.session.free(SCALARS);
        self.session.free(20 + self.round);
        self.stage = MsmStage::Result;
        assert(self.session@ =~= old(self).session@ + fix_round_end::<
            G::ScalarField,
            G::GpuRepr,
        >(old(self).round as nat));
    }

    /// Go on with the counts of the buckets and the list of those that are not empty.
    pub fn resume_with_counts(&mut self, counts: &[u32], ids: &[u32])
        requires
            old(self).wf(),
            counts@.len() == old(self).spec_sizes().buckets,
            ids@.len() == old(self).spec_sizes().buckets,
            old(self).spec_stage() matches MsmStage::Counts { num_nonempty }
                && crate::dispatch::listed(
                counts@.take(old(self).current().total_buckets() as int),
                ids@.take(old(self).current().total_buckets() as int),
                num_nonempty as nat,
            ),
        ensures
            final(self).wf(),
            final(self).same_job(old(self)),
            final(self).spec_round() == old(self).spec_round(),
            final(self).spec_stage() == MsmStage::Result,
            old(self).spec_stage() matches MsmStage::Counts { num_nonempty } ==> final(self).spec_session()@
                == old(self).spec_session()@ + crate::fused_msm::msm_counts_plan::<
                G::ScalarField,
                G::GpuRepr,
            >(old(self).current(), num_nonempty as nat, counts@, ids@) + fix_round_end(
                old(self).spec_round() as nat,
            ),
            forall|
                poly: Seq<G::ScalarField>,
                challenges: Seq<G::ScalarField>,
                bases: Seq<G::GpuRepr>,
                reports: Seq<MsmReport>,
            |
                #[trigger] old(self).follows(poly, challenges, bases, reports) ==> final(self).follows(
                    poly,
                    challenges,
                    bases,
                    crate::commit_laws::last_with_counts(reports, counts@, ids@),
                ),
    {
        let p = self.msm();
        match self.stage {
            MsmStage::Counts { num_nonempty } => {
                msm_counts(&mut self.session, p, self.sizes, num_nonempty, counts, ids);
                self.end_round();
            },
            _ => {},
        }
        proof {
            assert forall|
                poly: Seq<G::ScalarField>,
                challenges: Seq<G::ScalarField>,
                bases: Seq<G::GpuRepr>,
                reports: Seq<MsmReport>,
            | #[trigger] old(self).follows(poly, challenges, bases, reports) implies self.follows(
                poly,
                challenges,
                bases,
                crate::commit_laws::last_with_counts(reports, counts@, ids@),
            ) by {
                let i = self.round as nat;
                let more = crate::commit_laws::last_with_counts(reports, counts@, ids@);
                assert(more.take(i as int) =~= reports.take(i as int));
                crate::commit_laws::fix_log_of_earlier(
                    poly,
                    challenges,
                    bases,
                    self.work_units as nat,
                    self.sizes,
                    reports,
                    more,
                    i,
                );
                let log = crate::commit_laws::fix_log(
                    poly,
                    challenges,
                    bases,
                    self.work_units as nat,
                    self.sizes,
                    more,
                    i,
                );
                assert(self.session@ =~= log + crate::commit_laws::msm_rest(
                    p,
                    self.sizes,
                    more.last(),
                ) + fix_round_end(i));
            }
        }
    }

    /// Take the results of the current round, and go on with the next round. After the last round
    /// these are the results of all rounds, in order.
    pub fn finish_round(self, intermediate: Vec<G::ScalarField>, commitment: G::Group) -> (r: Either<
        FixVarsAndCommitResult<G::ScalarField, G::Group>,
        Self,
    >)
        requires
            self.wf(),
            self.spec_stage() == MsmStage::Result,
        ensures
            self.spec_round() + 1 == self.spec_num_challenges() ==> (r matches Either::Done(d) && {
                &&& d.intermediates@ == self.spec_intermediates()@.push(intermediate)
                &&& d.commitments@ == self.spec_commitments()@.push(commitment)
            }),
            self.spec_round() + 1 < self.spec_num_challenges() ==> (r matches Either::Run(job) && {
                &&& job.wf()
                &&& job.spec_initial_len() == self.spec_initial_len()
                &&& job.spec_work_units() == self.spec_work_units()
                &&& job.spec_num_challenges() == self.spec_num_challenges()
                &&& job.spec_sizes() == self.spec_sizes()
                &&& job.spec_round() == self.spec_round() + 1
                &&& job.spec_stage() == MsmStage::Offsets
                &&& job.spec_intermediates()@ == self.spec_intermediates()@.push(intermediate)
                &&& job.spec_commitments()@ == self.spec_commitments()@.push(commitment)
                &&& job.spec_session()@ == self.spec_session()@ + fix_round_plan::<G::ScalarField, G::GpuRepr>(
                    job.spec_round() as nat,
                    job.current(),
                    self.spec_sizes(),
                )
                &&& forall|
                    poly: Seq<G::ScalarField>,
                    challenges: Seq<G::ScalarField>,
                    bases: Seq<G::GpuRepr>,
                    reports: Seq<MsmReport>,
                |
                    #[trigger] self.follows(poly, challenges, bases, reports) ==> job.follows(
                        poly,
                        challenges,
                        bases,
                        reports,
                    )
            }),
    {
        let mut job = self;
        job.intermediates.push(intermediate);
        job.commitments.push(commitment);
        if job.round + 1 == job.num_challenges {
            return Either::Done(
                FixVarsAndCommitResult {
                    intermediates: job.intermediates,
                    commitments: job.commitments,
                },
            );
        }
        job.next_round();
        Either::Run(job)
    }

    fn next_round(&mut self)
        requires
            old(self).wf(),
            old(self).stage == MsmStage::Result,
            old(self).round + 1 < old(self).num_challenges,
        ensures
            final(self).wf(),
            final(self).same_job(old(self)),
            final(self).round == old(self).round + 1,
            final(self).stage == MsmStage::Offsets,
            final(self).session@ == old(self).session@ + fix_round_plan::<
                G::ScalarField,
                G::GpuRepr,
            >(final(self).round as nat, final(self).current(), old(self).sizes),
    {
        self.round = self.round + 1;
        self.begin_round();
    }
}

/// The logarithm of a machine number is small.
pub proof fn log_is_small(n: usize)
    ensures
        crate::arith::log2(n as nat) < 64,
{
    if n >= 1 {
        let l = crate::arith::log2(n as nat);
        crate::arith::log2_bounds(n as nat);
        vstd::arithmetic::power2::lemma2_to64_rest();
        if l > 64 {
            vstd::arithmetic::power2::lemma_pow2_strictly_increases(64, l);
        }
    }
}

impl<G: GpuAffine> FusedPolyCommit<G> {
    /// The program whose kernels are run.
    pub closed spec fn spec_program(&self) -> Program {
        self.program
    }

    /// Work units for MSM parallelization.
    pub closed spec fn spec_work_units(&self) -> nat {
        self.work_units as nat
    }

    /// Create a new fused poly-commit handler.
    pub fn create(program: Program, work_units: usize) -> (r: EcResult<Self>)
        ensures
            r matches Ok(k) && k.spec_program() == program && k.spec_work_units() == work_units,
    {
        Ok(FusedPolyCommit { program, work_units, _phantom: PhantomData })
    }

    /// The program whose kernels are run.
    pub fn program(&self) -> (r: &Program)
        ensures
            *r == self.spec_program(),
    {
        &self.program
    }

    /// Work units for MSM parallelization.
    pub fn work_units(&self) -> (r: usize)
        ensures
            r == self.spec_work_units(),
    {
        self.work_units
    }

    /// Fused fix_vars + commit operation.
    ///
    /// This performs fix_var iterations and commits to each intermediate polynomial
    /// in a single GPU session, keeping bases on GPU between MSMs.
    ///
    /// Optimizations over the naive approach:
    /// 1. Bases are uploaded once and reused for all MSMs
    /// 2. Scalar bytes are generated on GPU (no CPU conversion + re-upload)
    /// 3. All operations happen in a single GPU session
    ///
    /// # Arguments
    /// * `poly` - Input polynomial evaluations
    /// * `challenges` - Challenge values for each fix_var iteration
    /// * `bases` - G1 bases for MSM (must be at least as long as poly)
    pub fn fix_vars_and_commit<'a>(
        &self,
        poly: &'a [G::ScalarField],
        challenges: &'a [G::ScalarField],
        bases: &'a [G::GpuRepr],
    ) -> (r: Either<
        FixVarsAndCommitResult<G::ScalarField, G::Group>,
        FixVarsAndCommit<'a, G>,
    >)
        requires
            vstd::arithmetic::power2::is_pow2(poly@.len() as int),
            challenges@.len() <= crate::arith::log2(poly@.len()),
            bases@.len() >= poly@.len(),
            challenges@.len() > 0 ==> self.spec_work_units() > 0,
            forall|i: nat|
                1 <= i <= challenges@.len() ==> #[trigger] commit_params(
                    crate::poly_ops::halved(poly@.len(), i),
                    self.spec_work_units(),
                ).total_pairs() <= usize::MAX,
        ensures
            challenges@.len() == 0 ==> (r matches Either::Done(d) && d.intermediates@.len() == 0
                && d.commitments@.len() == 0),
            challenges@.len() > 0 ==> (r matches Either::Run(job) && {
                &&& job.wf()
                &&& job.spec_initial_len() == poly@.len()
                &&& job.spec_work_units() == self.spec_work_units()
                &&& job.spec_num_challenges() == challenges@.len()
                &&& job.spec_round() == 0
                &&& job.spec_stage() == MsmStage::Offsets
                &&& job.spec_intermediates()@.len() == 0
                &&& job.spec_commitments()@.len() == 0
                &&& job.spec_session()@ == fix_start_plan::<G::ScalarField, G::GpuRepr>(
                    poly@,
                    challenges@,
                    bases@,
                    job.spec_sizes(),
                    job.current(),
                )
                &&& job.follows(poly@, challenges@, bases@, Seq::empty())
            }),
    {
        if challenges.len() == 0 {
            return Either::Done(
                FixVarsAndCommitResult { intermediates: Vec::new(), commitments: Vec::new() },
            );
        }
        let num_challenges: usize = challenges.len();
        let initial_len: usize = poly.len();
        // Smaller polynomials mean smaller windows, hence more windows and potentially more pairs.
        // The maximum over all rounds is what the buffers need.
        let mut sizes = MsmSizes::none();
        let mut len: usize = initial_len;
        let mut i: usize = 0;
        let ghost ps = round_params(
            initial_len as nat,
            self.work_units as nat,
            num_challenges as nat,
        );
        assert(ps.take(0) =~= Seq::empty());
        while i < num_challenges
            invariant
                i <= num_challenges,
                num_challenges <= crate::arith::log2(initial_len as nat),
                initial_len >= 1,
                self.work_units > 0,
                ps == round_params(
                    initial_len as nat,
                    self.work_units as nat,
                    num_challenges as nat,
                ),
                len == crate::poly_ops::halved(initial_len as nat, i as nat),
                sizes == MsmSizes::of(ps.take(i as int)),
                forall|j: int| 0 <= j < i ==> (#[trigger] ps[j]).fits(),
                i > 0 ==> sizes.covers(ps[i - 1]),
                forall|j: nat|
                    1 <= j <= num_challenges ==> #[trigger] commit_params(
                        crate::poly_ops::halved(initial_len as nat, j),
                        self.work_units as nat,
                    ).total_pairs() <= usize::MAX,
            decreases num_challenges - i,
        {
            let nb: usize = len / 2;
            proof {
                crate::poly_ops::halved_positive(initial_len as nat, (i + 1) as nat);
            }
            let p = params(nb, self.work_units);
            proof {
                assert(p == commit_params(
                    crate::poly_ops::halved(initial_len as nat, (i + 1) as nat),
                    self.work_units as nat,
                ));
                assert(ps[i as int] == p);
                assert(ps.take(i + 1).drop_last() =~= ps.take(i as int));
            }
            sizes = sizes.grown(p);
            len = nb;
            i = i + 1;
        }
        proof {
            assert(ps.take(i as int) =~= ps);
            ps[i - 1].bounds();
        }
        let mut session: Session<'a, G::ScalarField, G::GpuRepr> = Session::new();
        session.create_buffer_from(20, HostData::Scalars(poly));
        session.create_buffer_from(BASES, HostData::Bases(bases));
        session.create_buffer_from(CHALLENGES, HostData::Scalars(challenges));
        let ghost head = session@;
        create_buffers(&mut session, sizes);
        let mut job = FixVarsAndCommit {
            session,
            initial_len,
            work_units: self.work_units,
            num_challenges,
            sizes,
            round: 0,
            stage: MsmStage::Offsets,
            intermediates: Vec::new(),
            commitments: Vec::new(),
        };
        proof {
            assert(head =~~= seq![
                Cmd::Upload { slot: poly_slot(0), data: DataView::Scalars(poly@) },
                Cmd::Upload { slot: BASES, data: DataView::Bases(bases@) },
                Cmd::Upload { slot: CHALLENGES, data: DataView::Scalars(challenges@) },
            ]);
            assert(job.session.buffers().contains_key(20));
            assert(job.session.buffers().contains_key(CHALLENGES));
        }
        job.begin_round();
        Either::Run(job)
    }
}

/// The bases go to the device once, and serve all rounds. The scalars of the commitments are made on
/// the device: no round brings field elements there.
pub proof fn rounds_reuse_bases<F, B>(
    poly: Seq<F>,
    challenges: Seq<F>,
    bases: Seq<B>,
    s: MsmSizes,
    p: SortedMsmParams,
    i: nat,
    q: SortedMsmParams,
)
    ensures
        ({
            let start = fix_start_plan::<F, B>(poly, challenges, bases, s, p);
            &&& start[1] == (Cmd::<F, B>::Upload { slot: BASES, data: DataView::Bases(bases) })
            &&& forall|j: int|
                0 <= j < start.len() && j != 1 ==> !crate::session::loads_bases(
                    #[trigger] start[j],
                )
        }),
        ({
            let round = fix_round_plan::<F, B>(i, q, s);
            forall|j: int|
                0 <= j < round.len() ==> !crate::session::loads_bases(#[trigger] round[j])
                    && !crate::session::loads_scalars(round[j])
        }),
{
    round_loads_nothing::<F, B>(i, q, s);
    round_loads_nothing::<F, B>(0, p, s);
    crate::fused_msm::msm_keeps_data::<F, B>(
        SCALARS,
        p,
        s,
        0,
        Seq::empty(),
        Seq::empty(),
        Seq::empty(),
    );
    let start = fix_start_plan::<F, B>(poly, challenges, bases, s, p);
    let buffers = crate::fused_msm::buffers_plan::<F, B>(s);
    let round = fix_round_plan::<F, B>(0, p, s);
    assert forall|j: int|
        0 <= j < start.len() && j != 1 implies !crate::session::loads_bases(
        #[trigger] start[j],
    ) by {
        if 3 <= j < 3 + buffers.len() {
            assert(start[j] == buffers[j - 3]);
        } else if j >= 3 {
            assert(start[j] == round[j - 3 - buffers.len()]);
        }
    }
}

proof fn round_loads_nothing<F, B>(i: nat, q: SortedMsmParams, s: MsmSizes)
    ensures
        ({
            let round = fix_round_plan::<F, B>(i, q, s);
            forall|j: int|
                0 <= j < round.len() ==> !crate::session::loads_bases(#[trigger] round[j])
                    && !crate::session::loads_scalars(round[j])
        }),
{
    crate::fused_msm::msm_keeps_data::<F, B>(
        SCALARS,
        q,
        s,
        0,
        Seq::empty(),
        Seq::empty(),
        Seq::empty(),
    );
    let round = fix_round_plan::<F, B>(i, q, s);
    let msm = crate::fused_msm::msm_start_plan::<F, B>(SCALARS, q, s);
    assert forall|j: int| 0 <= j < round.len() implies !crate::session::loads_bases(
        #[trigger] round[j],
    ) && !crate::session::loads_scalars(round[j]) by {
        if j >= 5 {
            assert(round[j] == msm[j - 5]);
        }
    }
}

} // verus!
