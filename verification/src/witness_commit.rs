//! Witness polynomials fused with their commitments.

use vstd::prelude::*;

use crate::arith::div_ceil;
use crate::combined_ops::Either;
use crate::commit_laws::MsmReport;
use crate::curve::GpuAffine;
use crate::fused_commit::{params, FusedPolyCommit};
use crate::fused_msm::{
    create_buffers, msm_counts, msm_offsets, msm_start, MsmSizes, BN254_SCALAR_BITS,
    FIELD_WORK_SIZE,
};
use crate::multiexp::SortedMsmParams;
use crate::session::{Arg, Cmd, DataView, Elem, HostData, KernelId, Session};
use crate::sorted_msm::{BASES, SCALARS};
use crate::sorted_multiexp::MsmStage;
use crate::witness::{launch_phase1, launch_phase2, launch_phase3, WitnessShape, WitnessSlots};

verus! {

/// The polynomial.
pub const POLY: usize = 19;

/// The points.
pub const POINTS: usize = 20;

/// The witness polynomials.
pub const WITNESSES: usize = 21;

/// The carries out of the chunks.
pub const CARRIES: usize = 22;

/// The carries into the chunks.
pub const PROPAGATED: usize = 23;

/// The slots of the witness computation.
pub open spec fn slots() -> WitnessSlots {
    WitnessSlots {
        poly: POLY,
        witnesses: WITNESSES,
        carries: CARRIES,
        propagated: PROPAGATED,
        points: POINTS,
    }
}

/// The lengths of the buffers of the MSMs, which are all alike.
pub open spec fn sizes_of(p: SortedMsmParams) -> MsmSizes {
    MsmSizes::zero().with(p)
}

/// Convert the witness polynomial of point `i` to standard form.
pub open spec fn to_scalars_offset<F, B>(n: nat, i: nat) -> Cmd<F, B> {
    Cmd::Launch {
        kernel: KernelId::ToScalarBytesOffset,
        global: crate::fused_commit::groups(n),
        local: FIELD_WORK_SIZE as nat,
        args: seq![
            Arg::Buffer(WITNESSES),
            Arg::Buffer(SCALARS),
            Arg::Word(n as u32),
            Arg::Word((i * n) as u32),
        ],
    }
}

/// The first stage of the round of point `i`.
pub open spec fn witness_round_plan<F, B>(i: nat, p: SortedMsmParams) -> Seq<Cmd<F, B>> {
    seq![to_scalars_offset(p.n_bases as nat, i)] + crate::fused_msm::msm_start_plan(
        SCALARS,
        p,
        sizes_of(p),
    )
}

/// What [`FusedPolyCommit::witness_poly_batch_and_commit`] starts with.
pub open spec fn witness_start_plan<F, B>(
    poly: Seq<F>,
    points: Seq<F>,
    bases: Seq<B>,
    s: WitnessShape,
    p: SortedMsmParams,
) -> Seq<Cmd<F, B>> {
    seq![
        Cmd::Upload { slot: POLY, data: DataView::Scalars(poly) },
        Cmd::Upload { slot: POINTS, data: DataView::Scalars(points) },
        Cmd::Upload { slot: BASES, data: DataView::Bases(bases.take(s.witness_len() as int)) },
        Cmd::Alloc { slot: WITNESSES, elem: Elem::Scalar, len: s.total_witnesses() },
        Cmd::Alloc { slot: CARRIES, elem: Elem::Scalar, len: s.total_carries() },
        crate::witness::phase1(slots(), s),
        Cmd::Alloc { slot: PROPAGATED, elem: Elem::Scalar, len: s.total_carries() },
        crate::witness::phase2(slots(), s),
        crate::witness::phase3(slots(), s),
        Cmd::Alloc { slot: SCALARS, elem: Elem::Scalar, len: s.witness_len() },
    ] + crate::fused_msm::buffers_plan(sizes_of(p)) + witness_round_plan(0, p)
}

/// What [`FusedPolyCommit::witness_poly_batch_and_commit`] does with a constant polynomial, whose
/// witness polynomials have no elements: it ends with the upload of no bases, as the driver makes
/// no buffer without bytes.
pub open spec fn constant_plan<F, B>(poly: Seq<F>, points: Seq<F>) -> Seq<Cmd<F, B>> {
    seq![
        Cmd::Upload { slot: POLY, data: DataView::Scalars(poly) },
        Cmd::Upload { slot: POINTS, data: DataView::Scalars(points) },
        Cmd::Upload { slot: BASES, data: DataView::Bases(Seq::empty()) },
    ]
}

/// A fused witness polynomial computation + commit that is under way.
pub struct WitnessCommit<'a, G: GpuAffine> {
    /// What the device has to do, up to where the next data is waited for.
    session: Session<'a, G::ScalarField, G::GpuRepr>,
    /// How the witness polynomials are cut into chunks.
    shape: WitnessShape,
    /// The MSM of each round.
    params: SortedMsmParams,
    /// The lengths of the shared buffers.
    sizes: MsmSizes,
    /// The current round, which is the index of the point.
    round: usize,
    /// What is waited for.
    stage: MsmStage,
    /// The commitments of the rounds that are done.
    commitments: Vec<G::Group>,
}

impl<'a, G: GpuAffine> WitnessCommit<'a, G> {
    /// What the device has to do, up to where the next data is waited for.
    pub closed spec fn spec_session(&self) -> Session<'a, G::ScalarField, G::GpuRepr> {
        self.session
    }

    /// How the witness polynomials are cut into chunks.
    pub closed spec fn spec_shape(&self) -> WitnessShape {
        self.shape
    }

    /// The MSM of each round.
    pub closed spec fn spec_params(&self) -> SortedMsmParams {
        self.params
    }

    /// The lengths of the shared buffers.
    pub closed spec fn spec_sizes(&self) -> MsmSizes {
        self.sizes
    }

    /// The current round, which is the index of the point.
    pub closed spec fn spec_round(&self) -> usize {
        self.round
    }

    /// What is waited for.
    pub closed spec fn spec_stage(&self) -> MsmStage {
        self.stage
    }

    /// The commitments of the rounds that are done.
    pub closed spec fn spec_commitments(&self) -> Vec<G::Group> {
        self.commitments
    }

    /// What the device has to do, up to where the next data is waited for.
    pub fn session(&self) -> (r: &Session<'a, G::ScalarField, G::GpuRepr>)
        ensures
            *r == self.spec_session(),
    {
        &self.session
    }

    /// What is waited for.
    pub fn stage(&self) -> (r: MsmStage)
        ensures
            r == self.spec_stage(),
    {
        self.stage
    }

    /// The MSM of each round.
    pub fn params(&self) -> (r: SortedMsmParams)
        ensures
            r == self.spec_params(),
    {
        self.params
    }

    /// The session can be run, and holds what the next stage needs.
    pub open spec fn wf(&self) -> bool {
        let b = self.spec_session().buffers();
        &&& self.spec_session().wf()
        &&& self.spec_shape().wf()
        &&& self.spec_shape().total_witnesses() <= usize::MAX
        &&& self.spec_round() < self.spec_shape().num_points
        &&& self.spec_params().fits()
        &&& self.spec_params().n_bases == self.spec_shape().witness_len()
        &&& self.spec_sizes() == sizes_of(self.spec_params())
        &&& self.spec_sizes().covers(self.spec_params())
        &&& crate::fused_msm::ready(b, self.spec_sizes())
        &&& b.contains_key(SCALARS)
        &&& b.contains_key(WITNESSES)
    }

    /// Whether two states belong to the same operation.
    pub open spec fn same_job(&self, other: &Self) -> bool {
        &&& self.spec_shape() == other.spec_shape()
        &&& self.spec_params() == other.spec_params()
        &&& self.spec_sizes() == other.spec_sizes()
        &&& self.spec_commitments() == other.spec_commitments()
    }

    /// Whether the session is that of an operation on these data, given what the device reported so
    /// far: one report for each round that is done, and one for the current round once its offsets
    /// are known.
    pub open spec fn follows(
        &self,
        poly: Seq<G::ScalarField>,
        points: Seq<G::ScalarField>,
        bases: Seq<G::GpuRepr>,
        reports: Seq<MsmReport>,
    ) -> bool {
        let p = self.spec_params();
        let i = self.spec_round() as nat;
        let log = crate::commit_laws::witness_log(
            poly,
            points,
            bases,
            self.spec_shape(),
            p,
            reports,
            i,
        );
        match self.spec_stage() {
            MsmStage::Offsets => {
                &&& reports.len() == i
                &&& self.spec_session()@ == log
            },
            MsmStage::Counts { num_nonempty } => {
                &&& reports.len() == i + 1
                &&& reports.last().num_nonempty == num_nonempty
                &&& num_nonempty > 0
                &&& self.spec_session()@ == log + crate::fused_msm::msm_offsets_plan(
                    p,
                    sizes_of(p),
                    num_nonempty as nat,
                    reports.last().offsets,
                )
            },
            MsmStage::Result => {
                &&& reports.len() == i + 1
                &&& self.spec_session()@ == log + crate::commit_laws::msm_rest(
                    p,
                    sizes_of(p),
                    reports.last(),
                )
            },
        }
    }

    fn begin_round(&mut self)
        requires
            old(self).wf(),
        ensures
            final(self).wf(),
            final(self).same_job(old(self)),
            final(self).round == old(self).round,
            final(self).stage == MsmStage::Offsets,
            final(self).session@ == old(self).session@ + witness_round_plan::<
                G::ScalarField,
                G::GpuRepr,
            >(old(self).round as nat, old(self).params),
    {
        let n: usize = self.params.n_bases;
        let i: usize = self.round;
        proof {
            let ii = i as int;
            let k = self.shape.num_points as int;
            let w = n as int;
            assert(ii * w <= k * w) by (nonlinear_arith)
                requires
                    0 <= ii <= k,
                    w >= 0,
            ;
        }
        let witness_offset: usize = i * n;
        let ghost before = self.session@;
        // Convert witness Fr elements to scalar bytes on the device
        self.session.launch(
            KernelId::ToScalarBytesOffset,
            div_ceil(n, FIELD_WORK_SIZE),
            FIELD_WORK_SIZE,
            vec![
                Arg::Buffer(WITNESSES),
                Arg::Buffer(SCALARS),
                Arg::Word(n as u32),
                Arg::Word(witness_offset as u32),
            ],
        );
        assert(self.session@.last() =~~= to_scalars_offset::<G::ScalarField, G::GpuRepr>(
            n as nat,
            i as nat,
        ));
        msm_start(&mut self.session, SCALARS, self.params, self.sizes);
        self.stage = MsmStage::Offsets;
        assert(self.session@ =~= before + witness_round_plan::<G::ScalarField, G::GpuRepr>(
            i as nat,
            self.params,
        ));
    }

    /// Go on with the number of buckets that are not empty, and the offsets of the buckets.
    pub fn resume_with_offsets(&mut self, num_nonempty: u32, offsets: Vec<u32>)
        requires
            old(self).wf(),
            old(self).spec_stage() == MsmStage::Offsets,
            offsets@.len() == old(self).spec_sizes().buckets,
        ensures
            final(self).wf(),
            final(self).same_job(old(self)),
            final(self).spec_round() == old(self).spec_round(),
            final(self).spec_stage() == crate::fused_commit::offsets_stage(num_nonempty),
            final(self).spec_session()@ == old(self).spec_session()@ + crate::fused_msm::msm_offsets_plan::<
                G::ScalarField,
                G::GpuRepr,
            >(old(self).spec_params(), old(self).spec_sizes(), num_nonempty as nat, offsets@),
            forall|
                poly: Seq<G::ScalarField>,
                points: Seq<G::ScalarField>,
                bases: Seq<G::GpuRepr>,
                reports: Seq<MsmReport>,
            |
                #[trigger] old(self).follows(poly, points, bases, reports) ==> final(self).follows(
                    poly,
                    points,
                    bases,
                    reports.push(MsmReport::of_offsets(num_nonempty as nat, offsets@)),
                ),
    {
        let ghost report = MsmReport::of_offsets(num_nonempty as nat, offsets@);
        msm_offsets(&mut self.session, self.params, self.sizes, num_nonempty, offsets);
        if num_nonempty > 0 {
            self.stage = MsmStage::Counts { num_nonempty: num_nonempty as usize };
        } else {
            self.stage = MsmStage::Result;
        }
        proof {
            assert forall|
                poly: Seq<G::ScalarField>,
                points: Seq<G::ScalarField>,
                bases: Seq<G::GpuRepr>,
                reports: Seq<MsmReport>,
            | #[trigger] old(self).follows(poly, points, bases, reports) implies self.follows(
                poly,
                points,
                bases,
                reports.push(report),
            ) by {
                let i = self.round as nat;
                let more = reports.push(report);
                assert(more.take(i as int) =~= reports.take(i as int));
                crate::commit_laws::witness_log_of_earlier(
                    poly,
                    points,
                    bases,
                    self.shape,
                    self.params,
                    reports,
                    more,
                    i,
                );
            }
        }
    }

    /// Go on with the counts of the buckets and the list of those that are not empty.
    pub fn resume_with_counts(&mut self, counts: &[u32], ids: &[u32])
        requires
            old(self).wf(),
            counts@.len() == old(self).spec_sizes().buckets,
            ids@.len() == old(self).spec_sizes().buckets,
            old(self).spec_stage() matches MsmStage::Counts { num_nonempty }
                && crate::dispatch::listed(
                counts@.take(old(self).spec_params().total_buckets() as int),
                ids@.take(old(self).spec_params().total_buckets() as int),
                num_nonempty as nat,
            ),
        ensures
            final(self).wf(),
            final(self).same_job(old(self)),
            final(self).spec_round() == old(self).spec_round(),
            final(self).spec_stage() == MsmStage::Result,
            old(self).spec_stage() matches MsmStage::Counts { num_nonempty } ==> final(self).spec_session()@
                == old(self).spec_session()@ + crate::fused_msm::msm_counts_plan::<
                G::ScalarField,
                G::GpuRepr,
            >(old(self).spec_params(), num_nonempty as nat, counts@, ids@),
            forall|
                poly: Seq<G::ScalarField>,
                points: Seq<G::ScalarField>,
                bases: Seq<G::GpuRepr>,
                reports: Seq<MsmReport>,
            |
                #[trigger] old(self).follows(poly, points, bases, reports) ==> final(self).follows(
                    poly,
                    points,
                    bases,
                    crate::commit_laws::last_with_counts(reports, counts@, ids@),
                ),
    {
        match self.stage {
            MsmStage::Counts { num_nonempty } => {
                msm_counts(&mut self.session, self.params, self.sizes, num_nonempty, counts, ids);
                self.stage = MsmStage::Result;
            },
            _ => {},
        }
        proof {
            assert forall|
                poly: Seq<G::ScalarField>,
                points: Seq<G::ScalarField>,
                bases: Seq<G::GpuRepr>,
                reports: Seq<MsmReport>,
            | #[trigger] old(self).follows(poly, points, bases, reports) implies self.follows(
                poly,
                points,
                bases,
                crate::commit_laws::last_with_counts(reports, counts@, ids@),
            ) by {
                let i = self.round as nat;
                let more = crate::commit_laws::last_with_counts(reports, counts@, ids@);
                assert(more.take(i as int) =~= reports.take(i as int));
                crate::commit_laws::witness_log_of_earlier(
                    poly,
                    points,
                    bases,
                    self.shape,
                    self.params,
                    reports,
                    more,
                    i,
                );
                assert(self.session@ =~= crate::commit_laws::witness_log(
                    poly,
                    points,
                    bases,
                    self.shape,
                    self.params,
                    more,
                    i,
                ) + crate::commit_laws::msm_rest(self.params, sizes_of(self.params), more.last()));
            }
        }
    }

    /// Take the commitment of the current round, and go on with the next point. After the last
    /// one these are the commitments of all rounds, in order.
    pub fn finish_round(self, commitment: G::Group) -> (r: Either<Vec<G::Group>, Self>)
        requires
            self.wf(),
            self.spec_stage() == MsmStage::Result,
        ensures
            self.spec_round() + 1 == self.spec_shape().num_points ==> (r matches Either::Done(d) && d@
                == self.spec_commitments()@.push(commitment)),
            self.spec_round() + 1 < self.spec_shape().num_points ==> (r matches Either::Run(job) && {
                &&& job.wf()
                &&& job.spec_shape() == self.spec_shape()
                &&& job.spec_params() == self.spec_params()
                &&& job.spec_sizes() == self.spec_sizes()
                &&& job.spec_round() == self.spec_round() + 1
                &&& job.spec_stage() == MsmStage::Offsets
                &&& job.spec_commitments()@ == self.spec_commitments()@.push(commitment)
                &&& job.spec_session()@ == self.spec_session()@ + witness_round_plan::<
                    G::ScalarField,
                    G::GpuRepr,
                >((self.spec_round() + 1) as nat, self.spec_params())
                &&& forall|
                    poly: Seq<G::ScalarField>,
                    points: Seq<G::ScalarField>,
                    bases: Seq<G::GpuRepr>,
                    reports: Seq<MsmReport>,
                |
                    #[trigger] self.follows(poly, points, bases, reports) ==> job.follows(
                        poly,
                        points,
                        bases,
                        reports,
                    )
            }),
    {
        let mut job = self;
        job.commitments.push(commitment);
        if job.round + 1 == job.shape.num_points {
            return Either::Done(job.commitments);
        }
        job.next_round();
        Either::Run(job)
    }

    fn next_round(&mut self)
        requires
            old(self).wf(),
            old(self).stage == MsmStage::Result,
            old(self).round + 1 < old(self).shape.num_points,
        ensures
            final(self).wf(),
            final(self).same_job(old(self)),
            final(self).round == old(self).round + 1,
            final(self).stage == MsmStage::Offsets,
            final(self).session@ == old(self).session@ + witness_round_plan::<
                G::ScalarField,
                G::GpuRepr,
            >((old(self).round + 1) as nat, old(self).params),
    {
        self.round = self.round + 1;
        self.begin_round();
    }
}

impl<G: GpuAffine> FusedPolyCommit<G> {
    fn witness_of_constant<'a>(
        &self,
        poly: &'a [G::ScalarField],
        points: &'a [G::ScalarField],
        bases: &'a [G::GpuRepr],
    ) -> (job: WitnessCommit<'a, G>)
        requires
            poly@.len() == 1,
        ensures
            job.round == 0,
            job.stage == MsmStage::Offsets,
            job.commitments@.len() == 0,
            job.session.wf(),
            job.session@ == constant_plan::<G::ScalarField, G::GpuRepr>(poly@, points@),
    {
        let no_bases = vstd::slice::slice_subrange(bases, 0, 0);
        let mut session: Session<'a, G::ScalarField, G::GpuRepr> = Session::new();
        session.create_buffer_from(POLY, HostData::Scalars(poly));
        session.create_buffer_from(POINTS, HostData::Scalars(points));
        session.create_buffer_from(BASES, HostData::Bases(no_bases));
        assert(session@ =~~= constant_plan::<G::ScalarField, G::GpuRepr>(poly@, points@));
        WitnessCommit {
            session,
            shape: WitnessShape {
                poly_len: 1,
                num_points: points.len(),
                chunk_size: 1,
                num_chunks: 0,
            },
            params: SortedMsmParams::with_window_size(0, BN254_SCALAR_BITS, 2),
            sizes: MsmSizes::none(),
            round: 0,
            stage: MsmStage::Offsets,
            commitments: Vec::new(),
        }
    }

    /// Fused witness polynomial computation + MSM commit.
    ///
    /// This computes witness polynomials for KZG opening at multiple points and
    /// immediately commits to each witness polynomial, all in a single GPU session.
    /// The witness polynomials are never downloaded to CPU.
    ///
    /// # Arguments
    /// * `poly` - The polynomial to open (B(x) in HyperKZG Phase 3)
    /// * `points` - Evaluation points (e.g., [r, -r, r^2] in HyperKZG)
    /// * `bases` - G1 bases for MSM (must be at least poly.len() - 1)
    ///
    /// One commitment to a witness polynomial is computed per point.
    pub fn witness_poly_batch_and_commit<'a>(
        &self,
        poly: &'a [G::ScalarField],
        points: &'a [G::ScalarField],
        bases: &'a [G::GpuRepr],
    ) -> (job: WitnessCommit<'a, G>)
        requires
            poly@.len() > 0,
            points@.len() > 0,
            bases@.len() >= poly@.len() - 1,
            poly@.len() >= 2 ==> {
                &&& self.spec_work_units() > 0
                &&& points@.len() * (poly@.len() - 1) <= usize::MAX
                &&& crate::fused_commit::commit_params(
                    (poly@.len() - 1) as nat,
                    self.spec_work_units(),
                ).total_pairs() <= usize::MAX
            },
        ensures
            job.spec_round() == 0,
            job.spec_stage() == MsmStage::Offsets,
            job.spec_commitments()@.len() == 0,
            poly@.len() == 1 ==> job.spec_session().wf() && job.spec_session()@ == constant_plan::<
                G::ScalarField,
                G::GpuRepr,
            >(poly@, points@),
            poly@.len() >= 2 ==> {
                &&& job.wf()
                &&& job.spec_shape().poly_len == poly@.len()
                &&& job.spec_shape().num_points == points@.len()
                &&& job.spec_params() == crate::fused_commit::commit_params(
                    (poly@.len() - 1) as nat,
                    self.spec_work_units(),
                )
                &&& job.spec_session()@ == witness_start_plan::<G::ScalarField, G::GpuRepr>(
                    poly@,
                    points@,
                    bases@,
                    job.spec_shape(),
                    job.spec_params(),
                )
                &&& job.follows(poly@, points@, bases@, Seq::empty())
            },
    {
        if poly.len() == 1 {
            return self.witness_of_constant(poly, points, bases);
        }
        let witness_len: usize = poly.len() - 1;
        let shape = WitnessShape::new(poly.len(), points.len());
        let p = params(witness_len, self.work_units());
        let sizes = MsmSizes::none().grown(p);
        proof {
            p.bounds();
        }
        let t = WitnessSlots {
            poly: POLY,
            witnesses: WITNESSES,
            carries: CARRIES,
            propagated: PROPAGATED,
            points: POINTS,
        };
        let first_bases = vstd::slice::slice_subrange(bases, 0, witness_len);
        assert(first_bases@ =~= bases@.take(witness_len as int));
        let carries_len: usize = shape.num_points * shape.num_chunks;
        let mut session: Session<'a, G::ScalarField, G::GpuRepr> = Session::new();
        session.create_buffer_from(POLY, HostData::Scalars(poly));
        session.create_buffer_from(POINTS, HostData::Scalars(points));
        session.create_buffer_from(BASES, HostData::Bases(first_bases));
        // Parallel witness polynomial batch computation (3-phase)
        session.create_buffer(WITNESSES, Elem::Scalar, shape.num_points * witness_len);
        session.create_buffer(CARRIES, Elem::Scalar, carries_len);
        launch_phase1(&mut session, t, shape);
        session.create_buffer(PROPAGATED, Elem::Scalar, carries_len);
        launch_phase2(&mut session, t, shape);
        launch_phase3(&mut session, t, shape);
        // Buffer for scalar conversion (reused for each witness)
        session.create_buffer(SCALARS, Elem::Scalar, witness_len);
        let ghost head = session@;
        create_buffers(&mut session, sizes);
        let mut job = WitnessCommit {
            session,
            shape,
            params: p,
            sizes,
            round: 0,
            stage: MsmStage::Offsets,
            commitments: Vec::new(),
        };
        job.begin_round();
        proof {
            assert(head =~~= seq![
                Cmd::Upload { slot: POLY, data: DataView::Scalars(poly@) },
                Cmd::Upload { slot: POINTS, data: DataView::Scalars(points@) },
                Cmd::Upload {
                    slot: BASES,
                    data: DataView::Bases(bases@.take(shape.witness_len() as int)),
                },
                Cmd::Alloc { slot: WITNESSES, elem: Elem::Scalar, len: shape.total_witnesses() },
                Cmd::Alloc { slot: CARRIES, elem: Elem::Scalar, len: shape.total_carries() },
                crate::witness::phase1(slots(), shape),
                Cmd::Alloc { slot: PROPAGATED, elem: Elem::Scalar, len: shape.total_carries() },
                crate::witness::phase2(slots(), shape),
                crate::witness::phase3(slots(), shape),
                Cmd::Alloc { slot: SCALARS, elem: Elem::Scalar, len: shape.witness_len() },
            ]);
        }
        job
    }
}

/// The witness polynomials are never handed to the host: neither the start nor a round reads field
/// elements. The bases go to the device once, at the start.
pub proof fn witnesses_stay_on_device<F, B>(
    poly: Seq<F>,
    points: Seq<F>,
    bases: Seq<B>,
    s: WitnessShape,
    p: SortedMsmParams,
    i: nat,
)
    ensures
        ({
            let start = witness_start_plan::<F, B>(poly, points, bases, s, p);
            &&& start[2] == (Cmd::<F, B>::Upload {
                slot: BASES,
                data: DataView::Bases(bases.take(s.witness_len() as int)),
            })
            &&& forall|j: int|
                0 <= j < start.len() ==> !crate::session::reads_scalars(#[trigger] start[j]) && (j
                    != 2 ==> !crate::session::loads_bases(start[j]))
        }),
        crate::session::keeps_data(witness_round_plan::<F, B>(i, p)),
{
    crate::fused_msm::msm_keeps_data::<F, B>(
        SCALARS,
        p,
        sizes_of(p),
        0,
        Seq::empty(),
        Seq::empty(),
        Seq::empty(),
    );
    let msm = crate::fused_msm::msm_start_plan::<F, B>(SCALARS, p, sizes_of(p));
    let buffers = crate::fused_msm::buffers_plan::<F, B>(sizes_of(p));
    let round = witness_round_plan::<F, B>(i, p);
    assert forall|j: int| 0 <= j < round.len() implies {
        &&& !crate::session::loads_bases(#[trigger] round[j])
        &&& !crate::session::loads_scalars(round[j])
        &&& !crate::session::reads_scalars(round[j])
    } by {
        if j >= 1 {
            assert(round[j] == msm[j - 1]);
        }
    }
    let start = witness_start_plan::<F, B>(poly, points, bases, s, p);
    assert forall|j: int| 0 <= j < start.len() implies !crate::session::reads_scalars(
        #[trigger] start[j],
    ) && (j != 2 ==> !crate::session::loads_bases(start[j])) by {
        if 10 <= j < 10 + buffers.len() {
            assert(start[j] == buffers[j - 10]);
        } else if j > 10 + buffers.len() {
            assert(start[j] == msm[j - 11 - buffers.len()]);
        }
    }
}

} // verus!
