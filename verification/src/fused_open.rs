//! The whole HyperKZG open operation in one session.

use vstd::prelude::*;

use crate::arith::{div_ceil, floor_log2};
use crate::curve::GpuAffine;
use crate::fused_commit::{launch_fix_indexed, launch_to_scalars, FusedPolyCommit};
use crate::fused_msm::{MsmSizes, BN254_SCALAR_BITS, FIELD_WORK_SIZE};
use crate::multiexp::{SortedMsmParams, LOCAL_WORK_SIZE, MAX_WINDOW_SIZE};
use crate::session::{Arg, Cmd, DataView, Elem, HostData, KernelId, Session};
use crate::sorted_msm::{
    launch_combine_chunks, launch_count, launch_decompose, launch_prefix_sum, launch_preprocess,
    launch_reduce_chunked, launch_reduce_windows, launch_scatter, BASES, BUCKET_RESULTS, CHUNK_SBP,
    CHUNK_SUM, COUNTS, DIGITS, FINAL_RESULT, KEYS, NONEMPTY_IDS, NUM_NONEMPTY, OFFSETS, SCALARS,
    SCATTER_OFFSETS, SORTED, VALUES, WINDOW_RESULTS,
};
use crate::witness::{launch_phase1, launch_phase2, launch_phase3, WitnessShape, WitnessSlots};

verus! {

/// Input data for Phase 3 of the fused HyperKZG open operation.
///
/// Provides the CPU-computed parameters needed for Phase 3 (linear combination + witness
/// polynomials + witness MSMs).
#[derive(Debug)]
pub struct Phase3Input<F, G> {
    /// Linear combination coefficients (q_powers from transcript).
    pub lc_coeffs: Vec<F>,
    /// Evaluation points (e.g., [r, -r, r^2] in HyperKZG).
    pub eval_points: Vec<F>,
    /// Intermediate commitments in affine form (pass-through for the proof).
    pub intermediate_commitments_affine: Vec<G>,
    /// Evaluations v[i][j] = f_j(u_i) (pass-through for the proof).
    pub evaluations: Vec<Vec<F>>,
}

/// Result of a fused HyperKZG open operation.
///
/// `AffineG` is the affine commitment type (pass-through from the callback).
/// `ProjectiveG` is the projective group type (from GPU MSM output).
#[derive(Debug)]
pub struct FusedOpenResult<F, AffineG, ProjectiveG> {
    /// Intermediate polynomials from fix_var iterations.
    pub intermediates: Vec<Vec<F>>,
    /// Commitments to intermediate polynomials (affine, from Phase3Input pass-through).
    pub intermediate_commitments_affine: Vec<AffineG>,
    /// Witness commitments (projective, from Phase 3 MSMs).
    pub witness_commitments: Vec<ProjectiveG>,
    /// Evaluations v[i][j] = f_j(u_i) (from Phase3Input pass-through).
    pub evaluations: Vec<Vec<F>>,
}

/// The polynomial.
pub const POLY: usize = 19;

/// The challenges.
pub const CHALLENGES: usize = 20;

/// The commitments to the intermediate polynomials.
pub const COMMITMENTS: usize = 21;

/// The linear combination of the polynomials.
pub const COMBINED: usize = 22;

/// The coefficient of the polynomial.
pub const FIRST_COEFF: usize = 23;

/// The witness polynomial of a point.
pub const WITNESS: usize = 24;

/// The carries out of the chunks.
pub const CARRIES: usize = 25;

/// The carries into the chunks.
pub const PROPAGATED: usize = 26;

/// The witness polynomial of a point, in standard form.
pub const WITNESS_SCALARS: usize = 27;

/// The commitments to the witness polynomials.
pub const WITNESS_COMMITMENTS: usize = 28;

/// A point.
pub const POINT: usize = 29;

/// The coefficient of an intermediate polynomial.
pub const COEFF: usize = 30;

/// The slot of intermediate polynomial `i`.
pub open spec fn iter_slot(i: nat) -> usize {
    (32 + i) as usize
}

/// The window size of sort-based MSMs that are not looked at on the way: `log2(n) - 8`, but at
/// least three and at most the largest window size.
pub open spec fn sort_window_size(n: nat) -> nat {
    crate::arith::min_of(
        crate::arith::max_of(3, crate::arith::log2(n) - 8),
        MAX_WINDOW_SIZE as int,
    ) as nat
}

/// Compute sort-based MSM window size.
///
/// Targets ~2^(ws) points per bucket on average, which gives good parallelism
/// for the 1-thread-per-bucket accumulation kernel.
/// Formula: max(3, log2(n) - 8), capped at MAX_WINDOW_SIZE.
pub fn calc_sort_window_size(n_bases: usize) -> (r: usize)
    ensures
        r == sort_window_size(n_bases as nat),
        3 <= r <= MAX_WINDOW_SIZE,
{
    let ws: usize = if n_bases <= 1 {
        3
    } else {
        let log_n: usize = floor_log2(n_bases);
        if log_n <= 8 {
            3
        } else {
            log_n - 8
        }
    };
    let capped: usize = if ws <= MAX_WINDOW_SIZE {
        ws
    } else {
        MAX_WINDOW_SIZE
    };
    if capped >= 3 {
        capped
    } else {
        3
    }
}

/// The parameters of the MSM that commits to a polynomial of `n` elements.
pub open spec fn open_params(n: nat) -> SortedMsmParams {
    crate::multiexp::params_for(n, BN254_SCALAR_BITS as nat, sort_window_size(n))
}

/// The MSMs of the first `k` intermediate polynomials.
pub open spec fn round_open_params(len: nat, k: nat) -> Seq<SortedMsmParams> {
    Seq::new(k, |i: int| open_params(crate::poly_ops::halved(len, (i + 1) as nat)))
}

/// All MSMs: those of the intermediate polynomials and that of a witness polynomial.
pub open spec fn all_params(len: nat, k: nat) -> Seq<SortedMsmParams> {
    round_open_params(len, k).push(open_params((len - 1) as nat))
}

fn params(n: usize) -> (r: SortedMsmParams)
    ensures
        r.wf(),
        r == open_params(n as nat),
        r.n_bases == n,
        r.effective_bits == BN254_SCALAR_BITS,
{
    SortedMsmParams::with_window_size(n, BN254_SCALAR_BITS, calc_sort_window_size(n))
}

/// The number of thread groups for `n` items of an MSM.
pub open spec fn msm_groups(n: nat) -> nat {
    crate::sorted_msm::groups(n, LOCAL_WORK_SIZE)
}

/// A whole MSM without a look at the device.
pub open spec fn msm_plan<F, B>(scalars: usize, p: SortedMsmParams) -> Seq<Cmd<F, B>> {
    let tb = p.total_buckets();
    seq![
        crate::sorted_msm::preprocess(scalars, p, FIELD_WORK_SIZE),
        crate::sorted_msm::decompose(p),
        Cmd::Launch {
            kernel: KernelId::U32FillZero,
            global: msm_groups(tb),
            local: LOCAL_WORK_SIZE as nat,
            args: seq![Arg::Buffer(COUNTS), Arg::Word(tb as u32)],
        },
        crate::sorted_msm::count(p),
        crate::sorted_msm::prefix_sum(p),
        Cmd::Launch {
            kernel: KernelId::U32CopyBuffer,
            global: msm_groups(tb),
            local: LOCAL_WORK_SIZE as nat,
            args: seq![Arg::Buffer(OFFSETS), Arg::Buffer(SCATTER_OFFSETS), Arg::Word(tb as u32)],
        },
        crate::sorted_msm::scatter(p),
        Cmd::Launch {
            kernel: KernelId::AccumulateAllSortedBuckets,
            global: msm_groups(tb),
            local: LOCAL_WORK_SIZE as nat,
            args: seq![
                Arg::Buffer(BASES),
                Arg::Buffer(SORTED),
                Arg::Buffer(OFFSETS),
                Arg::Buffer(COUNTS),
                Arg::Buffer(BUCKET_RESULTS),
                Arg::Word(tb as u32),
            ],
        },
        crate::sorted_msm::reduce_chunked(p),
        crate::sorted_msm::combine_chunks(p),
        crate::sorted_msm::reduce_windows(p),
    ]
}

/// Save the result of an MSM as entry `i` of an array of points.
pub open spec fn save_plan<F, B>(to: usize, i: nat) -> Cmd<F, B> {
    Cmd::Launch {
        kernel: KernelId::CopyAtOffset,
        global: 1,
        local: 1,
        args: seq![Arg::Buffer(FINAL_RESULT), Arg::Buffer(to), Arg::Word(i as u32)],
    }
}

/// Whether a device has the buffers that the MSMs share.
pub open spec fn msm_ready(b: crate::session::Buffers) -> bool {
    &&& b.contains_key(BASES)
    &&& b.contains_key(DIGITS)
    &&& b.contains_key(KEYS)
    &&& b.contains_key(VALUES)
    &&& b.contains_key(SORTED)
    &&& b.contains_key(COUNTS)
    &&& b.contains_key(OFFSETS)
    &&& b.contains_key(SCATTER_OFFSETS)
    &&& b.contains_key(NONEMPTY_IDS)
    &&& b.contains_key(NUM_NONEMPTY)
    &&& b.contains_key(BUCKET_RESULTS)
    &&& b.contains_key(WINDOW_RESULTS)
    &&& b.contains_key(FINAL_RESULT)
    &&& b.contains_key(CHUNK_SBP)
    &&& b.contains_key(CHUNK_SUM)
}

fn run_msm<'a, F, B>(session: &mut Session<'a, F, B>, scalars: usize, p: SortedMsmParams)
    requires
        old(session).wf(),
        p.fits(),
        msm_ready(old(session).buffers()),
        old(session).buffers().contains_key(scalars),
    ensures
        final(session).wf(),
        final(session)@ == old(session)@ + msm_plan::<F, B>(scalars, p),
        final(session).buffers() == old(session).buffers(),
{
    proof {
        p.bounds();
    }
    let total_buckets: usize = p.num_windows * p.buckets_per_window;
    // 1. Preprocess to signed digits
    launch_preprocess(session, scalars, p, FIELD_WORK_SIZE);
    // 2. Decompose to (key, value) pairs
    launch_decompose(session, p);
    // 3. Zero counts
    session.launch(
        KernelId::U32FillZero,
        div_ceil(total_buckets, LOCAL_WORK_SIZE),
        LOCAL_WORK_SIZE,
        vec![Arg::Buffer(COUNTS), Arg::Word(total_buckets as u32)],
    );
    // 4. Count buckets
    launch_count(session, p);
    // 5. Prefix sum
    launch_prefix_sum(session, p);
    // 6. Copy offsets to scatter_offsets (scatter modifies via atomicAdd)
    session.launch(
        KernelId::U32CopyBuffer,
        div_ceil(total_buckets, LOCAL_WORK_SIZE),
        LOCAL_WORK_SIZE,
        vec![
            Arg::Buffer(OFFSETS),
            Arg::Buffer(SCATTER_OFFSETS),
            Arg::Word(total_buckets as u32),
        ],
    );
    // 7. Scatter to sorted
    launch_scatter(session, p);
    // 8. Accumulate ALL sorted buckets (no CPU dispatch, no sync)
    session.launch(
        KernelId::AccumulateAllSortedBuckets,
        div_ceil(total_buckets, LOCAL_WORK_SIZE),
        LOCAL_WORK_SIZE,
        vec![
            Arg::Buffer(BASES),
            Arg::Buffer(SORTED),
            Arg::Buffer(OFFSETS),
            Arg::Buffer(COUNTS),
            Arg::Buffer(BUCKET_RESULTS),
            Arg::Word(total_buckets as u32),
        ],
    );
    // 9. Parallel chunked bucket reduction, then combine chunks to windows
    launch_reduce_chunked(session, p);
    launch_combine_chunks(session, p);
    // 10. Horner reduction across windows
    launch_reduce_windows(session, p);
    assert(session@ =~~= old(session)@ + msm_plan::<F, B>(scalars, p));
}

fn save<'a, F, B>(session: &mut Session<'a, F, B>, to: usize, i: usize)
    requires
        old(session).wf(),
        old(session).buffers().contains_key(FINAL_RESULT),
        old(session).buffers().contains_key(to),
    ensures
        final(session).wf(),
        final(session)@ == old(session)@.push(save_plan::<F, B>(to, i as nat)),
        final(session).buffers() == old(session).buffers(),
{
    session.launch(
        KernelId::CopyAtOffset,
        1,
        1,
        vec![Arg::Buffer(FINAL_RESULT), Arg::Buffer(to), Arg::Word(i as u32)],
    );
    assert(session@.last() =~~= save_plan::<F, B>(to, i as nat));
}

/// The uploads and the buffers that the MSMs share.
pub open spec fn shared_plan<F, B>(poly: Seq<F>, bases: Seq<B>, s: MsmSizes) -> Seq<Cmd<F, B>> {
    let chunks = crate::arith::max_of(s.chunks as int, 1) as nat;
    seq![
        Cmd::Upload { slot: BASES, data: DataView::Bases(bases) },
        Cmd::Upload { slot: POLY, data: DataView::Scalars(poly) },
        Cmd::Alloc { slot: DIGITS, elem: Elem::Digit, len: s.digits as nat },
        Cmd::Alloc { slot: KEYS, elem: Elem::Word, len: s.pairs as nat },
        Cmd::Alloc { slot: VALUES, elem: Elem::Word, len: s.pairs as nat },
        Cmd::Alloc { slot: SORTED, elem: Elem::Word, len: s.pairs as nat },
        Cmd::Alloc { slot: COUNTS, elem: Elem::Word, len: s.buckets as nat },
        Cmd::Alloc { slot: OFFSETS, elem: Elem::Word, len: s.buckets as nat },
        Cmd::Alloc { slot: SCATTER_OFFSETS, elem: Elem::Word, len: s.buckets as nat },
        Cmd::Alloc { slot: NONEMPTY_IDS, elem: Elem::Word, len: s.buckets as nat },
        Cmd::Alloc { slot: NUM_NONEMPTY, elem: Elem::Word, len: 1 },
        Cmd::Alloc { slot: BUCKET_RESULTS, elem: Elem::Point, len: s.buckets as nat },
        Cmd::Alloc { slot: WINDOW_RESULTS, elem: Elem::Point, len: s.windows as nat },
        Cmd::Alloc { slot: FINAL_RESULT, elem: Elem::Point, len: 1 },
        Cmd::Alloc { slot: CHUNK_SBP, elem: Elem::Point, len: chunks },
        Cmd::Alloc { slot: CHUNK_SUM, elem: Elem::Point, len: chunks },
    ]
}

/// The buffers of the first `k` intermediate polynomials.
pub open spec fn iter_buffers_plan<F, B>(len: nat, k: nat) -> Seq<Cmd<F, B>> {
    Seq::new(
        k,
        |i: int|
            Cmd::Alloc {
                slot: iter_slot(i as nat),
                elem: Elem::Scalar,
                len: crate::poly_ops::halved(len, (i + 1) as nat),
            },
    )
}

/// Fix variable `i` and commit to the result.
pub open spec fn open_round_plan<F, B>(len: nat, i: nat) -> Seq<Cmd<F, B>> {
    let n = crate::poly_ops::halved(len, i + 1);
    let from = if i == 0 {
        POLY
    } else {
        iter_slot((i - 1) as nat)
    };
    seq![
        crate::fused_commit::fix_indexed(from, iter_slot(i), CHALLENGES, n, i),
        crate::fused_commit::to_scalars(iter_slot(i), SCALARS, n),
    ] + msm_plan(SCALARS, open_params(n)) + seq![save_plan(COMMITMENTS, i)]
}

/// Fix `k` variables and commit to each result.
pub open spec fn open_rounds_plan<F, B>(len: nat, k: nat) -> Seq<Cmd<F, B>>
    decreases k,
{
    if k == 0 {
        Seq::empty()
    } else {
        open_rounds_plan::<F, B>(len, (k - 1) as nat) + open_round_plan(len, (k - 1) as nat)
    }
}

/// Hand out the first `k` intermediate polynomials.
pub open spec fn iter_reads_plan<F, B>(len: nat, k: nat) -> Seq<Cmd<F, B>> {
    Seq::new(
        k,
        |i: int|
            Cmd::Read {
                slot: iter_slot(i as nat),
                elem: Elem::Scalar,
                len: crate::poly_ops::halved(len, (i + 1) as nat),
            },
    )
}

/// Everything up to where the intermediate polynomials and their commitments are handed out.
pub open spec fn phase2_plan<F, B>(
    poly: Seq<F>,
    challenges: Seq<F>,
    bases: Seq<B>,
    s: MsmSizes,
) -> Seq<Cmd<F, B>> {
    shared_plan(poly, bases, s) + rounds_plan(challenges, poly.len())
}

/// What follows the shared buffers: the rounds, with their buffers and their results.
pub open spec fn rounds_plan<F, B>(challenges: Seq<F>, len: nat) -> Seq<Cmd<F, B>> {
    let k = challenges.len();
    seq![
        Cmd::Alloc {
            slot: SCALARS,
            elem: Elem::Scalar,
            len: if k > 0 {
                len / 2
            } else {
                1
            },
        },
    ] + iter_buffers_plan(len, k) + seq![
        Cmd::Alloc {
            slot: COMMITMENTS,
            elem: Elem::Point,
            len: crate::arith::max_of(k as int, 1) as nat,
        },
    ] + if k > 0 {
        seq![Cmd::Upload { slot: CHALLENGES, data: DataView::Scalars(challenges) }]
            + open_rounds_plan(len, k) + iter_reads_plan(len, k) + seq![
            Cmd::Read { slot: COMMITMENTS, elem: Elem::Point, len: k },
            Cmd::Free { slot: CHALLENGES },
        ]
    } else {
        Seq::empty()
    }
}

/// Begin a linear combination with the polynomial itself.
pub open spec fn first_term_plan<F, B>(coeff: F, len: nat) -> Seq<Cmd<F, B>> {
    seq![
        Cmd::Alloc { slot: COMBINED, elem: Elem::Scalar, len },
        Cmd::Upload { slot: FIRST_COEFF, data: DataView::Scalars(seq![coeff]) },
        Cmd::Launch {
            kernel: KernelId::ScalePoly,
            global: crate::sorted_msm::groups(len, FIELD_WORK_SIZE),
            local: FIELD_WORK_SIZE as nat,
            args: seq![
                Arg::Buffer(POLY),
                Arg::Buffer(COMBINED),
                Arg::Buffer(FIRST_COEFF),
                Arg::Word(len as u32),
            ],
        },
    ]
}

/// Add intermediate polynomial `i` to the linear combination.
pub open spec fn term_plan<F, B>(coeff: F, len: nat, i: nat) -> Seq<Cmd<F, B>> {
    seq![
        Cmd::Upload { slot: COEFF, data: DataView::Scalars(seq![coeff]) },
        Cmd::Launch {
            kernel: KernelId::LinearCombineAccumulate,
            global: crate::sorted_msm::groups(len, FIELD_WORK_SIZE),
            local: FIELD_WORK_SIZE as nat,
            args: seq![
                Arg::Buffer(iter_slot(i)),
                Arg::Buffer(COMBINED),
                Arg::Buffer(COEFF),
                Arg::Word(crate::poly_ops::halved(len, i + 1) as u32),
                Arg::Word(len as u32),
            ],
        },
        Cmd::Free { slot: COEFF },
    ]
}

/// Add the first `k` intermediate polynomials, each with its coefficient.
pub open spec fn terms_plan<F, B>(coeffs: Seq<F>, len: nat, k: nat) -> Seq<Cmd<F, B>>
    decreases k,
{
    if k == 0 {
        Seq::empty()
    } else {
        terms_plan::<F, B>(coeffs, len, (k - 1) as nat) + term_plan(
            coeffs[k as int],
            len,
            (k - 1) as nat,
        )
    }
}

/// Release the first `k` intermediate polynomials.
pub open spec fn iter_frees_plan<F, B>(k: nat) -> Seq<Cmd<F, B>> {
    Seq::new(k, |i: int| Cmd::Free { slot: iter_slot(i as nat) })
}

/// The slots of the witness passes.
pub open spec fn open_slots() -> WitnessSlots {
    WitnessSlots {
        poly: COMBINED,
        witnesses: WITNESS,
        carries: CARRIES,
        propagated: PROPAGATED,
        points: POINT,
    }
}

/// The buffers of the witness passes.
pub open spec fn witness_buffers_plan<F, B>(shape: WitnessShape, num_points: nat) -> Seq<Cmd<F, B>> {
    seq![
        Cmd::Alloc { slot: WITNESS, elem: Elem::Scalar, len: shape.witness_len() },
        Cmd::Alloc { slot: CARRIES, elem: Elem::Scalar, len: shape.num_chunks as nat },
        Cmd::Alloc { slot: PROPAGATED, elem: Elem::Scalar, len: shape.num_chunks as nat },
        Cmd::Alloc { slot: WITNESS_SCALARS, elem: Elem::Scalar, len: shape.witness_len() },
        Cmd::Alloc {
            slot: WITNESS_COMMITMENTS,
            elem: Elem::Point,
            len: crate::arith::max_of(num_points as int, 1) as nat,
        },
    ]
}

/// Compute the witness polynomial of a point and commit to it.
pub open spec fn point_plan<F, B>(point: F, shape: WitnessShape, i: nat) -> Seq<Cmd<F, B>> {
    let n = shape.witness_len();
    seq![
        Cmd::Upload { slot: POINT, data: DataView::Scalars(seq![point]) },
        crate::witness::phase1(open_slots(), shape),
        crate::witness::phase2(open_slots(), shape),
        crate::witness::phase3(open_slots(), shape),
        crate::fused_commit::to_scalars(WITNESS, WITNESS_SCALARS, n),
    ] + msm_plan(WITNESS_SCALARS, open_params(n)) + seq![
        save_plan(WITNESS_COMMITMENTS, i),
        Cmd::Free { slot: POINT },
    ]
}

/// Compute and commit to the witness polynomials of the first `m` points.
pub open spec fn points_plan<F, B>(points: Seq<F>, shape: WitnessShape, m: nat) -> Seq<Cmd<F, B>>
    decreases m,
{
    if m == 0 {
        Seq::empty()
    } else {
        points_plan::<F, B>(points, shape, (m - 1) as nat) + point_plan(
            points[m - 1],
            shape,
            (m - 1) as nat,
        )
    }
}

/// The linear combination, the witness polynomials and the commitments to these.
pub open spec fn phase3_plan<F, B>(
    coeffs: Seq<F>,
    points: Seq<F>,
    shape: WitnessShape,
    k: nat,
) -> Seq<Cmd<F, B>> {
    let len = shape.poly_len as nat;
    first_term_plan(coeffs[0], len) + terms_plan(coeffs, len, k) + iter_frees_plan(k)
        + witness_buffers_plan(shape, points.len()) + points_plan(points, shape, points.len())
        + if points.len() > 0 {
        seq![Cmd::Read { slot: WITNESS_COMMITMENTS, elem: Elem::Point, len: points.len() }]
    } else {
        Seq::empty()
    }
}

/// Whether a device has the buffers of the witness passes.
pub open spec fn witness_ready(b: crate::session::Buffers, num_points: nat) -> bool {
    &&& b.contains_key(COMBINED)
    &&& b.contains_key(WITNESS)
    &&& b.contains_key(CARRIES)
    &&& b.contains_key(PROPAGATED)
    &&& b.contains_key(WITNESS_SCALARS)
    &&& b.contains_key(WITNESS_COMMITMENTS)
    &&& b[WITNESS_COMMITMENTS] == (
        Elem::Point,
        crate::arith::max_of(num_points as int, 1) as nat,
    )
}

/// A fused HyperKZG open operation that is under way.
pub struct FusedOpen<'a, G: GpuAffine> {
    /// What the device has to do, up to where the next data is waited for.
    session: Session<'a, G::ScalarField, G::GpuRepr>,
    /// The length of the polynomial.
    initial_len: usize,
    /// The number of variables that are fixed.
    num_challenges: usize,
}

/// Whether a device has the buffers of intermediate polynomials `from` to `k`.
pub open spec fn has_iters(b: crate::session::Buffers, len: nat, from: nat, k: nat) -> bool {
    forall|i: nat|
        from <= i < k ==> b.contains_key(#[trigger] iter_slot(i)) && b[iter_slot(i)] == (
            Elem::Scalar,
            crate::poly_ops::halved(len, i + 1),
        )
}

/// Whether two devices have the same buffers, but for those of intermediate polynomials.
pub open spec fn same_but_iters(a: crate::session::Buffers, b: crate::session::Buffers) -> bool {
    forall|s: usize|
        #![trigger a.contains_key(s)]
        #![trigger b.contains_key(s)]
        s < 32 ==> a.contains_key(s) == b.contains_key(s) && (a.contains_key(s) ==> a[s] == b[s])
}

impl<'a, G: GpuAffine> FusedOpen<'a, G> {
    /// What the device has to do, up to where the next data is waited for.
    pub closed spec fn spec_session(&self) -> Session<'a, G::ScalarField, G::GpuRepr> {
        self.session
    }

    /// The length of the polynomial.
    pub closed spec fn spec_initial_len(&self) -> usize {
        self.initial_len
    }

    /// The number of variables that are fixed.
    pub closed spec fn spec_num_challenges(&self) -> usize {
        self.num_challenges
    }

    /// What the device has to do, up to where the next data is waited for.
    pub fn session(&self) -> (r: &Session<'a, G::ScalarField, G::GpuRepr>)
        ensures
            *r == self.spec_session(),
    {
        &self.session
    }

    /// What holds of the numbers.
    pub open spec fn numbers_ok(&self) -> bool {
        &&& self.spec_initial_len() >= 2
        &&& self.spec_num_challenges() <= crate::arith::log2(self.spec_initial_len() as nat)
        &&& self.spec_num_challenges() < 64
        &&& forall|i: nat|
            1 <= i <= self.spec_num_challenges() ==> (#[trigger] open_params(
                crate::poly_ops::halved(self.spec_initial_len() as nat, i),
            )).fits()
        &&& open_params((self.spec_initial_len() - 1) as nat).fits()
    }

    /// The session can be run, and holds what the next phase needs.
    pub open spec fn wf(&self) -> bool {
        let b = self.spec_session().buffers();
        &&& self.numbers_ok()
        &&& self.spec_session().wf()
        &&& msm_ready(b)
        &&& b.contains_key(POLY)
        &&& has_iters(b, self.spec_initial_len() as nat, 0, self.spec_num_challenges() as nat)
    }

    /// Whether two states belong to the same operation.
    pub open spec fn same_job(&self, other: &Self) -> bool {
        &&& self.spec_initial_len() == other.spec_initial_len()
        &&& self.spec_num_challenges() == other.spec_num_challenges()
    }

    fn create_iter_buffers(&mut self)
        requires
            old(self).numbers_ok(),
            old(self).session.wf(),
        ensures
            final(self).same_job(old(self)),
            final(self).session.wf(),
            final(self).session@ == old(self).session@ + iter_buffers_plan::<
                G::ScalarField,
                G::GpuRepr,
            >(old(self).initial_len as nat, old(self).num_challenges as nat),
            has_iters(
                final(self).session.buffers(),
                old(self).initial_len as nat,
                0,
                old(self).num_challenges as nat,
            ),
            same_but_iters(old(self).session.buffers(), final(self).session.buffers()),
    {
        let ghost before = self.session@;
        let ghost b0 = self.session.buffers();
        let ghost plan = iter_buffers_plan::<G::ScalarField, G::GpuRepr>(
            self.initial_len as nat,
            self.num_challenges as nat,
        );
        let mut iter_len: usize = self.initial_len;
        let mut i: usize = 0;
        assert(before + plan.take(0) =~= before);
        while i < self.num_challenges
            invariant
                i <= self.num_challenges,
                self.numbers_ok(),
                self.same_job(old(self)),
                self.session.wf(),
                iter_len == crate::poly_ops::halved(self.initial_len as nat, i as nat),
                plan == iter_buffers_plan::<G::ScalarField, G::GpuRepr>(
                    self.initial_len as nat,
                    self.num_challenges as nat,
                ),
                self.session@ == before + plan.take(i as int),
                has_iters(self.session.buffers(), self.initial_len as nat, 0, i as nat),
                same_but_iters(b0, self.session.buffers()),
            decreases self.num_challenges - i,
        {
            iter_len = iter_len / 2;
            proof {
                crate::poly_ops::halved_positive(self.initial_len as nat, (i + 1) as nat);
            }
            self.session.create_buffer(32 + i, Elem::Scalar, iter_len);
            assert(self.session@ =~= before + plan.take(i + 1));
            i = i + 1;
        }
        assert(plan.take(i as int) =~= plan);
    }

    fn run_rounds(&mut self)
        requires
            old(self).wf(),
            old(self).session.buffers().contains_key(SCALARS),
            old(self).session.buffers().contains_key(CHALLENGES),
            old(self).session.buffers().contains_key(COMMITMENTS),
        ensures
            final(self).same_job(old(self)),
            final(self).wf(),
            final(self).session@ == old(self).session@ + open_rounds_plan::<
                G::ScalarField,
                G::GpuRepr,
            >(old(self).initial_len as nat, old(self).num_challenges as nat),
            final(self).session.buffers() == old(self).session.buffers(),
    {
        let ghost before = self.session@;
        let ghost b0 = self.session.buffers();
        let ghost len = self.initial_len as nat;
        let mut current_len: usize = self.initial_len;
        let mut i: usize = 0;
        assert(before + open_rounds_plan::<G::ScalarField, G::GpuRepr>(len, 0) =~= before);
        while i < self.num_challenges
            invariant
                i <= self.num_challenges,
                self.wf(),
                self.same_job(old(self)),
                len == self.initial_len,
                b0 == self.session.buffers(),
                b0.contains_key(SCALARS),
                b0.contains_key(CHALLENGES),
                b0.contains_key(COMMITMENTS),
                current_len == crate::poly_ops::halved(len, i as nat),
                self.session@ == before + open_rounds_plan::<G::ScalarField, G::GpuRepr>(
                    len,
                    i as nat,
                ),
            decreases self.num_challenges - i,
        {
            let next_len: usize = current_len / 2;
            let from: usize = if i == 0 {
                POLY
            } else {
                32 + (i - 1)
            };
            let to: usize = 32 + i;
            proof {
                assert(b0.contains_key(iter_slot(i as nat)));
                if i > 0 {
                    assert(b0.contains_key(iter_slot((i - 1) as nat)));
                }
            }
            let p = params(next_len);
            assert(open_params(crate::poly_ops::halved(len, (i + 1) as nat)).fits());
            let ghost here = self.session@;
            // Fix the variable
            launch_fix_indexed(&mut self.session, from, to, CHALLENGES, next_len, i);
            // Convert to scalar bytes on the device
            launch_to_scalars(&mut self.session, to, SCALARS, next_len);
            // Sort-based MSM (zero CPU-GPU sync points)
            run_msm(&mut self.session, SCALARS, p);
            // Save commitment to the array on the device (no per-iteration download)
            save(&mut self.session, COMMITMENTS, i);
            proof {
                assert(self.session@ =~= here + open_round_plan::<G::ScalarField, G::GpuRepr>(
                    len,
                    i as nat,
                ));
                assert(self.session@ =~= before + open_rounds_plan::<G::ScalarField, G::GpuRepr>(
                    len,
                    (i + 1) as nat,
                ));
            }
            current_len = next_len;
            i = i + 1;
        }
    }

    fn read_iters(&mut self)
        requires
            old(self).wf(),
        ensures
            final(self).same_job(old(self)),
            final(self).wf(),
            final(self).session@ == old(self).session@ + iter_reads_plan::<
                G::ScalarField,
                G::GpuRepr,
            >(old(self).initial_len as nat, old(self).num_challenges as nat),
            final(self).session.buffers() == old(self).session.buffers(),
    {
        let ghost before = self.session@;
        let ghost b0 = self.session.buffers();
        let ghost plan = iter_reads_plan::<G::ScalarField, G::GpuRepr>(
            self.initial_len as nat,
            self.num_challenges as nat,
        );
        let mut len: usize = self.initial_len;
        let mut i: usize = 0;
        assert(before + plan.take(0) =~= before);
        while i < self.num_challenges
            invariant
                i <= self.num_challenges,
                self.wf(),
                self.same_job(old(self)),
                b0 == self.session.buffers(),
                len == crate::poly_ops::halved(self.initial_len as nat, i as nat),
                plan == iter_reads_plan::<G::ScalarField, G::GpuRepr>(
                    self.initial_len as nat,
                    self.num_challenges as nat,
                ),
                self.session@ == before + plan.take(i as int),
            decreases self.num_challenges - i,
        {
            len = len / 2;
            assert(b0.contains_key(iter_slot(i as nat)));
            self.session.read_buffer(32 + i, Elem::Scalar, len);
            assert(self.session@ =~= before + plan.take(i + 1));
            i = i + 1;
        }
        assert(plan.take(i as int) =~= plan);
    }

    #[verifier::spinoff_prover]
    #[verifier::rlimit(50)]
    fn run_phase2(&mut self, challenges: &'a [G::ScalarField])
        requires
            old(self).numbers_ok(),
            old(self).num_challenges == challenges@.len(),
            old(self).session.wf(),
            msm_ready(old(self).session.buffers()),
            old(self).session.buffers().contains_key(POLY),
        ensures
            final(self).same_job(old(self)),
            final(self).wf(),
            final(self).session@ == old(self).session@ + rounds_plan::<G::ScalarField, G::GpuRepr>(
                challenges@,
                old(self).initial_len as nat,
            ),
    {
        let num_challenges: usize = self.num_challenges;
        let max_intermediate_len: usize = if num_challenges > 0 {
            self.initial_len / 2
        } else {
            1
        };
        self.session.create_buffer(SCALARS, Elem::Scalar, max_intermediate_len);
        // Pre-allocate per-iteration Fr buffers; these stay alive for Phase 3 streaming LC
        self.create_iter_buffers();
        // Buffer to accumulate Phase 2 commitments (batch download after loop)
        let num_commitments: usize = if num_challenges >= 1 {
            num_challenges
        } else {
            1
        };
        self.session.create_buffer(COMMITMENTS, Elem::Point, num_commitments);
        if num_challenges > 0 {
            self.session.create_buffer_from(CHALLENGES, HostData::Scalars(challenges));
            self.run_rounds();
            // Batch download all intermediates and all commitments
            self.read_iters();
            self.session.read_buffer(COMMITMENTS, Elem::Point, num_challenges);
            self.session.free(CHALLENGES);
        }
        assert(self.session@ =~= old(self).session@ + rounds_plan::<G::ScalarField, G::GpuRepr>(
            challenges@,
            old(self).initial_len as nat,
        ));
    }

    fn add_first_term(&mut self, coeff: G::ScalarField)
        requires
            old(self).wf(),
        ensures
            final(self).same_job(old(self)),
            final(self).wf(),
            final(self).session@ == old(self).session@ + first_term_plan::<
                G::ScalarField,
                G::GpuRepr,
            >(coeff, old(self).initial_len as nat),
            final(self).session.buffers().contains_key(COMBINED),
    {
        let n: usize = self.initial_len;
        self.session.create_buffer(COMBINED, Elem::Scalar, n);
        let coeffs: Vec<G::ScalarField> = vec![coeff];
        assert(coeffs@ =~= seq![coeff]);
        self.session.create_buffer_from(FIRST_COEFF, HostData::ScalarVec(coeffs));
        self.session.launch(
            KernelId::ScalePoly,
            div_ceil(n, FIELD_WORK_SIZE),
            FIELD_WORK_SIZE,
            vec![
                Arg::Buffer(POLY),
                Arg::Buffer(COMBINED),
                Arg::Buffer(FIRST_COEFF),
                Arg::Word(n as u32),
            ],
        );
        assert(self.session@ =~~= old(self).session@ + first_term_plan::<
            G::ScalarField,
            G::GpuRepr,
        >(coeff, old(self).initial_len as nat));
    }

    fn add_terms(&mut self, coeffs: &Vec<G::ScalarField>)
        requires
            old(self).wf(),
            old(self).session.buffers().contains_key(COMBINED),
            coeffs@.len() > old(self).num_challenges,
        ensures
            final(self).same_job(old(self)),
            final(self).wf(),
            final(self).session@ == old(self).session@ + terms_plan::<G::ScalarField, G::GpuRepr>(
                coeffs@,
                old(self).initial_len as nat,
                old(self).num_challenges as nat,
            ),
            final(self).session.buffers().contains_key(COMBINED),
    {
        let ghost before = self.session@;
        let ghost len = self.initial_len as nat;
        let n: usize = self.initial_len;
        let mut src_len: usize = self.initial_len;
        let mut i: usize = 0;
        assert(before + terms_plan::<G::ScalarField, G::GpuRepr>(coeffs@, len, 0) =~= before);
        while i < self.num_challenges
            invariant
                i <= self.num_challenges,
                self.wf(),
                self.same_job(old(self)),
                self.session.buffers().contains_key(COMBINED),
                len == self.initial_len,
                n == len,
                coeffs@.len() > self.num_challenges,
                src_len == crate::poly_ops::halved(len, i as nat),
                self.session@ == before + terms_plan::<G::ScalarField, G::GpuRepr>(
                    coeffs@,
                    len,
                    i as nat,
                ),
            decreases self.num_challenges - i,
        {
            src_len = src_len / 2;
            let ghost here = self.session@;
            assert(self.session.buffers().contains_key(iter_slot(i as nat)));
            let coeff: Vec<G::ScalarField> = vec![coeffs[i + 1]];
            assert(coeff@ =~= seq![coeffs@[i + 1]]);
            self.session.create_buffer_from(COEFF, HostData::ScalarVec(coeff));
            self.session.launch(
                KernelId::LinearCombineAccumulate,
                div_ceil(n, FIELD_WORK_SIZE),
                FIELD_WORK_SIZE,
                vec![
                    Arg::Buffer(32 + i),
                    Arg::Buffer(COMBINED),
                    Arg::Buffer(COEFF),
                    Arg::Word(src_len as u32),
                    Arg::Word(n as u32),
                ],
            );
            self.session.free(COEFF);
            proof {
                assert(self.session@ =~~= here + term_plan::<G::ScalarField, G::GpuRepr>(
                    coeffs@[i + 1],
                    len,
                    i as nat,
                ));
                assert(self.session@ =~= before + terms_plan::<G::ScalarField, G::GpuRepr>(
                    coeffs@,
                    len,
                    (i + 1) as nat,
                ));
            }
            i = i + 1;
        }
    }

    fn free_iters(&mut self)
        requires
            old(self).wf(),
            old(self).session.buffers().contains_key(COMBINED),
        ensures
            final(self).same_job(old(self)),
            final(self).session.wf(),
            msm_ready(final(self).session.buffers()),
            final(self).session.buffers().contains_key(COMBINED),
            final(self).session@ == old(self).session@ + iter_frees_plan::<
                G::ScalarField,
                G::GpuRepr,
            >(old(self).num_challenges as nat),
    {
        let ghost before = self.session@;
        let ghost plan = iter_frees_plan::<G::ScalarField, G::GpuRepr>(self.num_challenges as nat);
        let mut i: usize = 0;
        assert(before + plan.take(0) =~= before);
        while i < self.num_challenges
            invariant
                i <= self.num_challenges,
                self.numbers_ok(),
                self.same_job(old(self)),
                self.session.wf(),
                msm_ready(self.session.buffers()),
                self.session.buffers().contains_key(COMBINED),
                has_iters(
                    self.session.buffers(),
                    self.initial_len as nat,
                    i as nat,
                    self.num_challenges as nat,
                ),
                plan == iter_frees_plan::<G::ScalarField, G::GpuRepr>(self.num_challenges as nat),
                self.session@ == before + plan.take(i as int),
            decreases self.num_challenges - i,
        {
            assert(self.session.buffers().contains_key(iter_slot(i as nat)));
            self.session.free(32 + i);
            assert(self.session@ =~= before + plan.take(i + 1));
            i = i + 1;
        }
        assert(plan.take(i as int) =~= plan);
    }

    fn create_witness_buffers(&mut self, shape: WitnessShape, num_points: usize)
        requires
            old(self).session.wf(),
            msm_ready(old(self).session.buffers()),
            old(self).session.buffers().contains_key(COMBINED),
            shape.wf(),
            shape.num_chunks >= 1,
        ensures
            final(self).same_job(old(self)),
            final(self).session.wf(),
            msm_ready(final(self).session.buffers()),
            witness_ready(final(self).session.buffers(), num_points as nat),
            final(self).session@ == old(self).session@ + witness_buffers_plan::<
                G::ScalarField,
                G::GpuRepr,
            >(shape, num_points as nat),
    {
        let witness_len: usize = shape.poly_len - 1;
        let num_commitments: usize = if num_points >= 1 {
            num_points
        } else {
            1
        };
        // Single witness buffer (reusable across all eval points)
        self.session.create_buffer(WITNESS, Elem::Scalar, witness_len);
        self.session.create_buffer(CARRIES, Elem::Scalar, shape.num_chunks);
        self.session.create_buffer(PROPAGATED, Elem::Scalar, shape.num_chunks);
        // Scalar buffer for witness MSM
        self.session.create_buffer(WITNESS_SCALARS, Elem::Scalar, witness_len);
        // Buffer to accumulate witness commitments (batch download after loop)
        self.session.create_buffer(WITNESS_COMMITMENTS, Elem::Point, num_commitments);
        assert(self.session@ =~~= old(self).session@ + witness_buffers_plan::<
            G::ScalarField,
            G::GpuRepr,
        >(shape, num_points as nat));
    }

    fn run_points(&mut self, points: &Vec<G::ScalarField>, shape: WitnessShape)
        requires
            old(self).numbers_ok(),
            old(self).session.wf(),
            msm_ready(old(self).session.buffers()),
            witness_ready(old(self).session.buffers(), points@.len()),
            shape.wf(),
            shape.poly_len == old(self).initial_len,
            shape.num_points == 1,
        ensures
            final(self).same_job(old(self)),
            final(self).session.wf(),
            witness_ready(final(self).session.buffers(), points@.len()),
            final(self).session@ == old(self).session@ + points_plan::<G::ScalarField, G::GpuRepr>(
                points@,
                shape,
                points@.len(),
            ),
    {
        let ghost before = self.session@;
        let witness_len: usize = shape.poly_len - 1;
        let p = params(witness_len);
        let slots = WitnessSlots {
            poly: COMBINED,
            witnesses: WITNESS,
            carries: CARRIES,
            propagated: PROPAGATED,
            points: POINT,
        };
        let mut i: usize = 0;
        assert(before + points_plan::<G::ScalarField, G::GpuRepr>(points@, shape, 0) =~= before);
        while i < points.len()
            invariant
                i <= points@.len(),
                self.same_job(old(self)),
                self.session.wf(),
                msm_ready(self.session.buffers()),
                witness_ready(self.session.buffers(), points@.len()),
                shape.wf(),
                shape.num_points == 1,
                witness_len == shape.poly_len - 1,
                p == open_params(shape.witness_len()),
                p.fits(),
                slots == open_slots(),
                self.session@ == before + points_plan::<G::ScalarField, G::GpuRepr>(
                    points@,
                    shape,
                    i as nat,
                ),
            decreases points@.len() - i,
        {
            let ghost here = self.session@;
            let point: Vec<G::ScalarField> = vec![points[i]];
            assert(point@ =~= seq![points@[i as int]]);
            self.session.create_buffer_from(POINT, HostData::ScalarVec(point));
            // Witness computation: chunks, carry propagation, carry corrections
            launch_phase1(&mut self.session, slots, shape);
            launch_phase2(&mut self.session, slots, shape);
            launch_phase3(&mut self.session, slots, shape);
            // Convert witness to scalar bytes on the device
            launch_to_scalars(&mut self.session, WITNESS, WITNESS_SCALARS, witness_len);
            // Sort-based MSM (zero CPU-GPU sync points)
            run_msm(&mut self.session, WITNESS_SCALARS, p);
            // Save witness commitment to the array on the device
            save(&mut self.session, WITNESS_COMMITMENTS, i);
            self.session.free(POINT);
            proof {
                assert(self.session@ =~~= here + point_plan::<G::ScalarField, G::GpuRepr>(
                    points@[i as int],
                    shape,
                    i as nat,
                ));
                assert(self.session@ =~= before + points_plan::<G::ScalarField, G::GpuRepr>(
                    points@,
                    shape,
                    (i + 1) as nat,
                ));
            }
            i = i + 1;
        }
    }

    /// Phase 3: linear combination, witness polynomials and witness commitments.
    ///
    /// There must be a coefficient for the polynomial and one for each intermediate polynomial.
    #[verifier::spinoff_prover]
    #[verifier::rlimit(50)]
    pub fn resume<A>(&mut self, input: &Phase3Input<G::ScalarField, A>)
        requires
            old(self).wf(),
            input.lc_coeffs@.len() >= 1 + old(self).spec_num_challenges(),
        ensures
            final(self).same_job(old(self)),
            final(self).spec_session().wf(),
            final(self).spec_session()@ == old(self).spec_session()@ + phase3_plan::<G::ScalarField, G::GpuRepr>(
                input.lc_coeffs@,
                input.eval_points@,
                WitnessShape::of(old(self).spec_initial_len(), 1),
                old(self).spec_num_challenges() as nat,
            ),
    {
        let num_points: usize = input.eval_points.len();
        let shape = WitnessShape::new(self.initial_len, 1);
        let ghost before = self.session@;
        let ghost k = self.num_challenges as nat;
        let ghost len = self.initial_len as nat;
        let ghost terms = first_term_plan::<G::ScalarField, G::GpuRepr>(input.lc_coeffs@[0], len)
            + terms_plan(input.lc_coeffs@, len, k) + iter_frees_plan(k);
        let ghost witnesses = witness_buffers_plan::<G::ScalarField, G::GpuRepr>(
            shape,
            num_points as nat,
        ) + points_plan(input.eval_points@, shape, num_points as nat);
        // First polynomial: writes combined = coeff * poly, no read of combined
        self.add_first_term(input.lc_coeffs[0]);
        // Accumulate each intermediate directly from on-GPU per-iteration buffers
        self.add_terms(&input.lc_coeffs);
        // Per-iteration buffers no longer needed: free GPU memory
        self.free_iters();
        assert(self.session@ =~= before + terms);
        // Streaming witness computation + MSMs
        self.create_witness_buffers(shape, num_points);
        self.run_points(&input.eval_points, shape);
        assert(self.session@ =~= before + terms + witnesses);
        // Batch download all witness commitments
        if num_points > 0 {
            self.session.read_buffer(WITNESS_COMMITMENTS, Elem::Point, num_points);
        }
        let ghost reads: Seq<Cmd<G::ScalarField, G::GpuRepr>> = if num_points > 0 {
            seq![Cmd::Read { slot: WITNESS_COMMITMENTS, elem: Elem::Point, len: num_points as nat }]
        } else {
            Seq::empty()
        };
        proof {
            assert(self.session@ =~= before + terms + witnesses + reads);
            let plan = phase3_plan::<G::ScalarField, G::GpuRepr>(
                input.lc_coeffs@,
                input.eval_points@,
                shape,
                k,
            );
            assert(plan =~= terms + witnesses + reads);
            assert(before + (terms + witnesses + reads) =~= before + terms + witnesses + reads);
        }
    }

    /// Put the result together.
    pub fn finish<A>(
        intermediates: Vec<Vec<G::ScalarField>>,
        input: Phase3Input<G::ScalarField, A>,
        witness_commitments: Vec<G::Group>,
    ) -> (r: FusedOpenResult<G::ScalarField, A, G::Group>)
        ensures
            r.intermediates == intermediates,
            r.intermediate_commitments_affine == input.intermediate_commitments_affine,
            r.witness_commitments == witness_commitments,
            r.evaluations == input.evaluations,
    {
        FusedOpenResult {
            intermediates,
            intermediate_commitments_affine: input.intermediate_commitments_affine,
            witness_commitments,
            evaluations: input.evaluations,
        }
    }
}

/// The lengths that the shared buffers need.
fn scan_sizes(initial_len: usize, num_challenges: usize) -> (r: MsmSizes)
    requires
        initial_len >= 2,
        num_challenges <= crate::arith::log2(initial_len as nat),
        forall|i: nat|
            1 <= i <= num_challenges ==> (#[trigger] open_params(
                crate::poly_ops::halved(initial_len as nat, i),
            )).total_pairs() <= usize::MAX,
        open_params((initial_len - 1) as nat).total_pairs() <= usize::MAX,
    ensures
        r == MsmSizes::of(all_params(initial_len as nat, num_challenges as nat)),
        r.digits > 0,
        r.pairs > 0,
        r.buckets > 0,
        r.windows > 0,
        forall|i: nat|
            1 <= i <= num_challenges ==> (#[trigger] open_params(
                crate::poly_ops::halved(initial_len as nat, i),
            )).fits(),
        open_params((initial_len - 1) as nat).fits(),
{
    let ghost len = initial_len as nat;
    let ghost ps = round_open_params(len, num_challenges as nat);
    let mut sizes = MsmSizes::none();
    let mut scan_len: usize = initial_len;
    let mut i: usize = 0;
    assert(ps.take(0) =~= Seq::empty());
    while i < num_challenges
        invariant
            i <= num_challenges,
            len == initial_len,
            len >= 2,
            num_challenges <= crate::arith::log2(len),
            ps == round_open_params(len, num_challenges as nat),
            scan_len == crate::poly_ops::halved(len, i as nat),
            sizes == MsmSizes::of(ps.take(i as int)),
            forall|j: nat|
                1 <= j <= num_challenges ==> (#[trigger] open_params(
                    crate::poly_ops::halved(len, j),
                )).total_pairs() <= usize::MAX,
            forall|j: nat|
                1 <= j <= i ==> (#[trigger] open_params(
                    crate::poly_ops::halved(len, j),
                )).fits(),
        decreases num_challenges - i,
    {
        scan_len = scan_len / 2;
        proof {
            crate::poly_ops::halved_positive(len, (i + 1) as nat);
        }
        let p = params(scan_len);
        proof {
            assert(p == open_params(crate::poly_ops::halved(len, (i + 1) as nat)));
            assert(ps[i as int] == p);
            assert(ps.take(i + 1).drop_last() =~= ps.take(i as int));
        }
        sizes = sizes.grown(p);
        i = i + 1;
    }
    // Phase 3: witness MSMs use n_bases = initial_len - 1
    let witness_len: usize = initial_len - 1;
    let pw = params(witness_len);
    proof {
        assert(ps.take(num_challenges as int) =~= ps);
        assert(all_params(len, num_challenges as nat).drop_last() =~= ps);
        pw.bounds();
    }
    sizes.grown(pw)
}

/// Upload the data, and make the buffers that the MSMs share.
fn create_shared<'a, F, B>(
    session: &mut Session<'a, F, B>,
    poly: &'a [F],
    bases: &'a [B],
    sizes: MsmSizes,
)
    requires
        old(session).wf(),
        old(session)@.len() == 0,
        poly@.len() > 0,
        bases@.len() > 0,
        sizes.digits > 0,
        sizes.pairs > 0,
        sizes.buckets > 0,
        sizes.windows > 0,
    ensures
        final(session).wf(),
        final(session)@ == shared_plan::<F, B>(poly@, bases@, sizes),
        msm_ready(final(session).buffers()),
        final(session).buffers().contains_key(POLY),
{
    let chunks: usize = if sizes.chunks >= 1 {
        sizes.chunks
    } else {
        1
    };
    // Upload bases ONCE, reused for Phase 2 and Phase 3 MSMs
    session.create_buffer_from(BASES, HostData::Bases(bases));
    session.create_buffer_from(POLY, HostData::Scalars(poly));
    // Pre-allocate shared sort-based MSM buffers at max sizes
    session.create_buffer(DIGITS, Elem::Digit, sizes.digits);
    session.create_buffer(KEYS, Elem::Word, sizes.pairs);
    session.create_buffer(VALUES, Elem::Word, sizes.pairs);
    session.create_buffer(SORTED, Elem::Word, sizes.pairs);
    session.create_buffer(COUNTS, Elem::Word, sizes.buckets);
    session.create_buffer(OFFSETS, Elem::Word, sizes.buckets);
    session.create_buffer(SCATTER_OFFSETS, Elem::Word, sizes.buckets);
    session.create_buffer(NONEMPTY_IDS, Elem::Word, sizes.buckets);
    session.create_buffer(NUM_NONEMPTY, Elem::Word, 1);
    session.create_buffer(BUCKET_RESULTS, Elem::Point, sizes.buckets);
    session.create_buffer(WINDOW_RESULTS, Elem::Point, sizes.windows);
    session.create_buffer(FINAL_RESULT, Elem::Point, 1);
    session.create_buffer(CHUNK_SBP, Elem::Point, chunks);
    session.create_buffer(CHUNK_SUM, Elem::Point, chunks);
    assert(session@ =~~= shared_plan::<F, B>(poly@, bases@, sizes));
}

impl<G: GpuAffine> FusedPolyCommit<G> {
    /// Fused HyperKZG open: runs the entire open operation in one GPU session.
    ///
    /// This keeps bases on GPU for both Phase 2 (intermediate commits) and Phase 3
    /// (witness commits), and keeps intermediate polynomial data on GPU where possible.
    ///
    /// This plans everything up to Phase 2. CPU-side transcript work follows, while GPU buffers
    /// remain alive: from the intermediate polynomials and their commitments it makes the
    /// [`Phase3Input`] that [`FusedOpen::resume`] takes.
    ///
    /// # Memory optimizations
    /// - Sort-based MSM with zero CPU-GPU sync points (accumulate_all_sorted_buckets kernel)
    /// - Shared pre-allocated sort buffers reused across all iterations
    /// - Batched intermediate + commitment downloads after Phase 2 loop
    /// - scale_poly for combined_buffer init (no zero upload)
    /// - Per-iteration Fr buffers kept alive for streaming LC (no re-upload)
    /// - Streaming linear combination via linear_combine_accumulate (no flat polys_buffer)
    /// - Streaming witness computation: one eval point at a time (no bulk witnesses_buffer)
    pub fn fused_open<'a>(
        &self,
        poly: &'a [G::ScalarField],
        challenges: &'a [G::ScalarField],
        bases: &'a [G::GpuRepr],
    ) -> (job: FusedOpen<'a, G>)
        requires
            poly@.len() >= 2,
            vstd::arithmetic::power2::is_pow2(poly@.len() as int),
            challenges@.len() <= crate::arith::log2(poly@.len()),
            bases@.len() >= poly@.len(),
            forall|i: nat|
                1 <= i <= challenges@.len() ==> (#[trigger] open_params(
                    crate::poly_ops::halved(poly@.len(), i),
                )).total_pairs() <= usize::MAX,
            open_params((poly@.len() - 1) as nat).total_pairs() <= usize::MAX,
        ensures
            job.wf(),
            job.spec_initial_len() == poly@.len(),
            job.spec_num_challenges() == challenges@.len(),
            job.spec_session()@ == phase2_plan::<G::ScalarField, G::GpuRepr>(
                poly@,
                challenges@,
                bases@,
                MsmSizes::of(all_params(poly@.len(), challenges@.len())),
            ),
    {
        let initial_len: usize = poly.len();
        let num_challenges: usize = challenges.len();
        proof {
            crate::fused_commit::log_is_small(initial_len);
        }
        // Scan the rounds to find max buffer sizes
        let sizes = scan_sizes(initial_len, num_challenges);
        let mut session: Session<'a, G::ScalarField, G::GpuRepr> = Session::new();
        create_shared(&mut session, poly, bases, sizes);
        let mut job = FusedOpen { session, initial_len, num_challenges };
        job.run_phase2(challenges);
        job
    }
}

/// The rounds run without the host: they are kernel launches only, so that nothing is transferred
/// or waited for between the first round and the last.
pub proof fn rounds_stay_on_device<F, B>(len: nat, k: nat)
    ensures
        crate::session::all_launches(open_rounds_plan::<F, B>(len, k)),
    decreases k,
{
    if k > 0 {
        rounds_stay_on_device::<F, B>(len, (k - 1) as nat);
        assert(crate::session::all_launches(open_round_plan::<F, B>(len, (k - 1) as nat)));
    }
}

/// The host waits for no data while the witness commitments are computed: what it needs is read
/// after the last point.
pub proof fn points_never_wait<F, B>(points: Seq<F>, shape: WitnessShape, m: nat)
    ensures
        crate::session::never_waits(points_plan::<F, B>(points, shape, m)),
        crate::session::never_loads_bases(points_plan::<F, B>(points, shape, m)),
    decreases m,
{
    if m > 0 {
        points_never_wait::<F, B>(points, shape, (m - 1) as nat);
        let last = point_plan::<F, B>(points[m - 1], shape, (m - 1) as nat);
        assert(crate::session::never_waits(last));
        assert(crate::session::never_loads_bases(last));
    }
}

proof fn terms_load_no_bases<F, B>(coeffs: Seq<F>, len: nat, k: nat)
    ensures
        crate::session::never_loads_bases(terms_plan::<F, B>(coeffs, len, k)),
    decreases k,
{
    if k > 0 {
        terms_load_no_bases::<F, B>(coeffs, len, (k - 1) as nat);
        assert(crate::session::never_loads_bases(term_plan::<F, B>(coeffs[k as int], len, (k - 1) as nat)));
    }
}

/// The bases go to the device once, at the very beginning, and serve the commitments to the
/// intermediate polynomials as well as those to the witness polynomials.
pub proof fn bases_are_uploaded_once<F, B>(
    poly: Seq<F>,
    challenges: Seq<F>,
    bases: Seq<B>,
    s: MsmSizes,
    coeffs: Seq<F>,
    points: Seq<F>,
    shape: WitnessShape,
)
    ensures
        ({
            let all = phase2_plan::<F, B>(poly, challenges, bases, s) + phase3_plan::<F, B>(
                coeffs,
                points,
                shape,
                challenges.len(),
            );
            &&& all.len() > 0
            &&& all[0] == (Cmd::<F, B>::Upload { slot: BASES, data: DataView::Bases(bases) })
            &&& forall|i: int| 0 < i < all.len() ==> !crate::session::loads_bases(#[trigger] all[i])
        }),
{
    let k = challenges.len();
    let len = poly.len();
    rounds_stay_on_device::<F, B>(len, k);
    terms_load_no_bases::<F, B>(coeffs, shape.poly_len as nat, k);
    points_never_wait::<F, B>(points, shape, points.len());
    let shared = shared_plan::<F, B>(poly, bases, s);
    let rounds = rounds_plan::<F, B>(challenges, len);
    let last = phase3_plan::<F, B>(coeffs, points, shape, k);
    assert(crate::session::never_loads_bases(open_rounds_plan::<F, B>(len, k)));
    assert(crate::session::never_loads_bases(rounds));
    assert(crate::session::never_loads_bases(last));
    let all = phase2_plan::<F, B>(poly, challenges, bases, s) + last;
    assert forall|i: int| 0 < i < all.len() implies !crate::session::loads_bases(#[trigger] all[i]) by {
        if i < shared.len() {
            assert(all[i] == shared[i]);
        } else if i < shared.len() + rounds.len() {
            assert(all[i] == rounds[i - shared.len()]);
        } else {
            assert(all[i] == last[i - shared.len() - rounds.len()]);
        }
    }
}

} // verus!
