//! What the fused commitments commit to.

use vstd::prelude::*;

use crate::field::PrimeField;
use crate::fused_msm::{MsmSizes, BN254_SCALAR_BITS, FIELD_WORK_SIZE};
use crate::group::Group;
use crate::multiexp::SortedMsmParams;
use crate::session::{Cmd, DataView, Elem};
use crate::sorted_msm::{BASES, SCALARS};
use crate::sorted_sum::SortedRun;
use crate::witness::WitnessShape;
use crate::witness_commit::WITNESSES;

verus! {

/// What the device reports in a round.
pub struct MsmReport {
    /// How many buckets are not empty.
    pub num_nonempty: nat,
    /// The offsets of the buckets.
    pub offsets: Seq<u32>,
    /// The counts of the buckets.
    pub counts: Seq<u32>,
    /// The list of those that are not empty.
    pub ids: Seq<u32>,
}

impl MsmReport {
    /// What is known of a round once the offsets are.
    pub open spec fn of_offsets(num_nonempty: nat, offsets: Seq<u32>) -> MsmReport {
        MsmReport { num_nonempty, offsets, counts: Seq::empty(), ids: Seq::empty() }
    }

    /// What is known of a round once the counts are, too.
    pub open spec fn with_counts(self, counts: Seq<u32>, ids: Seq<u32>) -> MsmReport {
        MsmReport { counts, ids, ..self }
    }
}

/// The reports of the rounds, with what has become known of the last one.
pub open spec fn last_with_counts(
    reports: Seq<MsmReport>,
    counts: Seq<u32>,
    ids: Seq<u32>,
) -> Seq<MsmReport> {
    reports.drop_last().push(reports.last().with_counts(counts, ids))
}

spec fn no_report() -> MsmReport {
    MsmReport {
        num_nonempty: 0,
        offsets: Seq::empty(),
        counts: Seq::empty(),
        ids: Seq::empty(),
    }
}

/// The MSM of a round after its first stage.
pub open spec fn msm_rest<F, B>(p: SortedMsmParams, s: MsmSizes, r: MsmReport) -> Seq<Cmd<F, B>> {
    crate::fused_msm::msm_offsets_plan(
        p,
        s,
        r.num_nonempty,
        r.offsets,
    ) + if r.num_nonempty > 0 {
        crate::fused_msm::msm_counts_plan(p, r.num_nonempty, r.counts, r.ids)
    } else {
        Seq::empty()
    }
}

/// The session of [`crate::fused_commit::FusedPolyCommit::witness_poly_batch_and_commit`] up to the
/// first stage of round `i`, given what the device reported in the rounds before.
/// [`crate::witness_commit::WitnessCommit::follows`] says that it is.
pub open spec fn witness_log<F, B>(
    poly: Seq<F>,
    points: Seq<F>,
    bases: Seq<B>,
    s: WitnessShape,
    p: SortedMsmParams,
    reports: Seq<MsmReport>,
    i: nat,
) -> Seq<Cmd<F, B>>
    decreases i,
{
    if i == 0 {
        crate::witness_commit::witness_start_plan(poly, points, bases, s, p)
    } else {
        witness_log(poly, points, bases, s, p, reports, (i - 1) as nat) + msm_rest(
            p,
            crate::witness_commit::sizes_of(p),
            reports[i - 1],
        ) + crate::witness_commit::witness_round_plan(i, p)
    }
}

/// The session of [`crate::fused_commit::FusedPolyCommit::batch_commit`] up to the first stage of
/// round `i`, given what the device reported in the rounds before.
/// [`crate::batch_commit::BatchCommit::follows`] says that it is.
pub open spec fn batch_log<F, B>(
    polys: Seq<Seq<F>>,
    bases: Seq<B>,
    zero: F,
    p: SortedMsmParams,
    reports: Seq<MsmReport>,
    i: nat,
) -> Seq<Cmd<F, B>>
    decreases i,
{
    if i == 0 {
        crate::batch_commit::batch_start_plan(polys[0], bases, zero, p)
    } else {
        batch_log(polys, bases, zero, p, reports, (i - 1) as nat) + msm_rest(
            p,
            crate::witness_commit::sizes_of(p),
            reports[i - 1],
        ) + crate::batch_commit::batch_round_plan(polys[i as int], zero, p)
    }
}

/// The rounds before round `i` are all that its log depends on.
pub proof fn witness_log_of_earlier<F, B>(
    poly: Seq<F>,
    points: Seq<F>,
    bases: Seq<B>,
    s: WitnessShape,
    p: SortedMsmParams,
    reports: Seq<MsmReport>,
    more: Seq<MsmReport>,
    i: nat,
)
    requires
        i <= reports.len(),
        i <= more.len(),
        reports.take(i as int) == more.take(i as int),
    ensures
        witness_log(poly, points, bases, s, p, reports, i) == witness_log(
            poly,
            points,
            bases,
            s,
            p,
            more,
            i,
        ),
    decreases i,
{
    if i > 0 {
        let j = i - 1;
        assert(reports.take(j) =~= reports.take(i as int).take(j));
        assert(more.take(j) =~= more.take(i as int).take(j));
        assert(reports[j] == reports.take(i as int)[j]);
        assert(more[j] == more.take(i as int)[j]);
        witness_log_of_earlier(poly, points, bases, s, p, reports, more, j as nat);
    }
}

/// The rounds before round `i` are all that its log depends on.
pub proof fn batch_log_of_earlier<F, B>(
    polys: Seq<Seq<F>>,
    bases: Seq<B>,
    zero: F,
    p: SortedMsmParams,
    reports: Seq<MsmReport>,
    more: Seq<MsmReport>,
    i: nat,
)
    requires
        i <= reports.len(),
        i <= more.len(),
        reports.take(i as int) == more.take(i as int),
    ensures
        batch_log(polys, bases, zero, p, reports, i) == batch_log(polys, bases, zero, p, more, i),
    decreases i,
{
    if i > 0 {
        let j = i - 1;
        assert(reports.take(j) =~= reports.take(i as int).take(j));
        assert(more.take(j) =~= more.take(i as int).take(j));
        assert(reports[j] == reports.take(i as int)[j]);
        assert(more[j] == more.take(i as int)[j]);
        batch_log_of_earlier(polys, bases, zero, p, reports, more, j as nat);
    }
}

/// The scalars that the MSM of a round works on.
pub open spec fn scalars_of<F: PrimeField, B>(log: Seq<Cmd<F, B>>) -> Seq<int> {
    crate::field_device::run(crate::field_device::idle(), log).slots[SCALARS]
}

/// The stages of an MSM consist of commands of MSMs.
pub proof fn msm_parts_are_msm<F: PrimeField, B>(p: SortedMsmParams, s: MsmSizes, r: MsmReport)
    ensures
        crate::field_device::all_msm(
            crate::fused_msm::buffers_plan::<F, B>(s),
        ),
        crate::field_device::all_msm(
            crate::fused_msm::msm_start_plan::<F, B>(
                SCALARS,
                p,
                s,
            ),
        ),
        crate::field_device::all_msm(msm_rest::<F, B>(p, s, r)),
{
    let tail = crate::fused_msm::msm_tail_plan::<F, B>(p);
    assert(crate::field_device::all_msm(tail));
    let tb = p.total_buckets() as int;
    let sums = crate::sorted_msm::accumulate::<F, B>(
        r.counts.take(tb),
        r.ids.take(tb),
        r.num_nonempty,
    );
    assert(crate::field_device::all_msm(sums));
    let offsets = crate::fused_msm::msm_offsets_plan::<F, B>(p, s, r.num_nonempty, r.offsets);
    assert forall|i: int| 0 <= i < offsets.len() implies crate::field_device::is_msm(
        #[trigger] offsets[i],
    ) by {
        if i >= 3 && r.num_nonempty == 0 {
            assert(offsets[i] == tail[i - 3]);
        }
    }
    let rest = msm_rest::<F, B>(p, s, r);
    assert forall|i: int| 0 <= i < rest.len() implies crate::field_device::is_msm(
        #[trigger] rest[i],
    ) by {
        if i < offsets.len() {
            assert(rest[i] == offsets[i]);
        } else {
            let j = i - offsets.len();
            if j < sums.len() {
                assert(rest[i] == sums[j]);
            } else {
                assert(rest[i] == tail[j - sums.len()]);
            }
        }
    }
}

/// The witness polynomials of a polynomial, one for each point, back to back.
spec fn all_witnesses<F: PrimeField>(poly: Seq<F>, points: Seq<F>) -> Seq<int> {
    let f = crate::reference::values(poly);
    let us = crate::reference::values(points);
    crate::field_device::flat(
        |k: int| crate::field_device::witness(f, us[k], F::order() as int),
        points.len(),
        (poly.len() - 1) as nat,
    )
}

/// The witness polynomial of point `i`.
pub open spec fn witness_of<F: PrimeField>(poly: Seq<F>, points: Seq<F>, i: int) -> Seq<int> {
    crate::field_device::witness(
        crate::reference::values(poly),
        points[i].value() as int,
        F::order() as int,
    )
}

/// What is left after a round of MSM.
proof fn round_keeps<F: PrimeField, B>(
    d: crate::field_device::FieldDevice,
    p: SortedMsmParams,
    s: MsmSizes,
    r: MsmReport,
    o: usize,
)
    requires
        !crate::field_device::in_msm(o),
    ensures
        crate::field_device::run(d, msm_rest::<F, B>(p, s, r)).slots[o] == d.slots[o],
        crate::field_device::run(
            d,
            crate::fused_msm::msm_start_plan::<F, B>(
                SCALARS,
                p,
                s,
            ),
        ).slots[o] == d.slots[o],
        crate::field_device::run(
            d,
            crate::fused_msm::buffers_plan::<F, B>(s),
        ).slots[o] == d.slots[o],
{
    msm_parts_are_msm::<F, B>(p, s, r);
    crate::field_device::msm_leaves_fields(d, msm_rest::<F, B>(p, s, r), o);
    crate::field_device::msm_leaves_fields(
        d,
        crate::fused_msm::msm_start_plan::<F, B>(SCALARS, p, s),
        o,
    );
    crate::field_device::msm_leaves_fields(
        d,
        crate::fused_msm::buffers_plan::<F, B>(s),
        o,
    );
}

/// The first stage of the round of point `i` puts its witness polynomial in the place of the
/// scalars.
proof fn witness_round<F: PrimeField, B>(
    d: crate::field_device::FieldDevice,
    poly: Seq<F>,
    points: Seq<F>,
    p: SortedMsmParams,
    i: nat,
)
    requires
        poly.len() >= 2,
        p.n_bases == poly.len() - 1,
        i < points.len(),
        points.len() * (poly.len() - 1) <= u32::MAX,
        d.slots[WITNESSES] == all_witnesses(poly, points),
        d.slots[SCALARS].len() == poly.len() - 1,
    ensures
        ({
            let e = crate::field_device::run(
                d,
                crate::witness_commit::witness_round_plan::<F, B>(i, p),
            );
            &&& e.slots[WITNESSES] == d.slots[WITNESSES]
            &&& e.slots[SCALARS] == witness_of(poly, points, i as int)
        }),
{
    let n = (poly.len() - 1) as nat;
    let first = seq![crate::witness_commit::to_scalars_offset::<F, B>(n, i)];
    let start = crate::fused_msm::msm_start_plan::<F, B>(
        SCALARS,
        p,
        crate::witness_commit::sizes_of(p),
    );
    let f = crate::reference::values(poly);
    let us = crate::reference::values(points);
    let rows = |k: int| crate::field_device::witness(f, us[k], F::order() as int);
    crate::field_device::run_concat(d, first, start);
    let r = no_report();
    reveal_with_fuel(crate::field_device::run, 2);
    let e1 = crate::field_device::run(d, first);
    assert(e1 == crate::field_device::step(d, first[0]));
    round_keeps::<F, B>(e1, p, crate::witness_commit::sizes_of(p), r, SCALARS);
    round_keeps::<F, B>(e1, p, crate::witness_commit::sizes_of(p), r, WITNESSES);
    crate::field_device::groups_suffice(n, FIELD_WORK_SIZE);
    crate::field_device::flat_row(rows, points.len(), n, i as int);
    let from = i * n;
    let m = points.len();
    assert((i + 1) * n == i * n + n && (i + 1) * n <= m * n) by (nonlinear_arith)
        requires
            i < m,
    ;
    let new = d.slots[WITNESSES].subrange(from as int, (from + n) as int);
    assert(new == witness_of(poly, points, i as int));
    assert(e1.slots[SCALARS] == crate::field_device::overwritten(d.slots[SCALARS], new));
    assert(e1.slots[SCALARS] =~= new);
}

/// The first stage of the round of a polynomial puts it, with zeros behind it, in the place of the
/// scalars.
proof fn batch_round<F: PrimeField, B>(
    d: crate::field_device::FieldDevice,
    poly: Seq<F>,
    zero: F,
    p: SortedMsmParams,
)
    requires
        poly.len() <= p.n_bases,
        p.n_bases <= u32::MAX,
        d.slots[crate::batch_commit::PADDED].len() == p.n_bases,
        d.slots[SCALARS].len() == p.n_bases,
    ensures
        ({
            let e = crate::field_device::run(
                d,
                crate::batch_commit::batch_round_plan::<F, B>(poly, zero, p),
            );
            &&& e.slots[crate::batch_commit::PADDED].len() == p.n_bases
            &&& e.slots[SCALARS] == crate::reference::values(
                crate::batch_commit::padded(poly, p.n_bases as nat, zero),
            )
        }),
{
    let n = p.n_bases as nat;
    let padded = crate::batch_commit::padded(poly, n, zero);
    let first = seq![
        Cmd::Write { slot: crate::batch_commit::PADDED, data: DataView::Scalars(padded) },
        crate::fused_commit::to_scalars::<F, B>(crate::batch_commit::PADDED, SCALARS, n),
    ];
    let start = crate::fused_msm::msm_start_plan::<F, B>(
        SCALARS,
        p,
        crate::witness_commit::sizes_of(p),
    );
    crate::field_device::run_concat(d, first, start);
    let r = no_report();
    let e1 = crate::field_device::step(d, first[0]);
    let e2 = crate::field_device::run(d, first);
    crate::field_device::run_two(d, first);
    round_keeps::<F, B>(e2, p, crate::witness_commit::sizes_of(p), r, SCALARS);
    round_keeps::<F, B>(e2, p, crate::witness_commit::sizes_of(p), r, crate::batch_commit::PADDED);
    crate::field_device::groups_suffice(n, FIELD_WORK_SIZE);
    let v = crate::reference::values(padded);
    assert(e1.slots[crate::batch_commit::PADDED] =~= v);
    assert(v.take(n as int) =~= v);
    assert(e2.slots[SCALARS] =~= v);
}

/// The scalars of round `i` of the witness polynomials.
proof fn witness_rounds<F: PrimeField, B>(
    poly: Seq<F>,
    points: Seq<F>,
    bases: Seq<B>,
    s: WitnessShape,
    p: SortedMsmParams,
    reports: Seq<MsmReport>,
    i: nat,
)
    requires
        poly.len() >= 2,
        s.wf(),
        s.poly_len == poly.len(),
        s.num_points == points.len(),
        p.n_bases == poly.len() - 1,
        i < points.len(),
        poly.len() <= u32::MAX,
        points.len() <= u32::MAX,
        points.len() * (poly.len() - 1) <= u32::MAX,
    ensures
        ({
            let e = crate::field_device::run(
                crate::field_device::idle(),
                witness_log(poly, points, bases, s, p, reports, i),
            );
            &&& e.slots[WITNESSES] == all_witnesses(poly, points)
            &&& e.slots[SCALARS] == witness_of(poly, points, i as int)
        }),
    decreases i,
{
    let idle = crate::field_device::idle();
    let round = crate::witness_commit::witness_round_plan::<F, B>(i, p);
    if i == 0 {
        points[0].in_range();
        let t = crate::witness_commit::slots();
        let log = witness_log(poly, points, bases, s, p, reports, i);
        let buffers = crate::fused_msm::buffers_plan::<F, B>(crate::witness_commit::sizes_of(p));
        let head: Seq<Cmd<F, B>> = log.take(5);
        let passes = crate::field_device::passes::<F, B>(t, s);
        let scalars: Seq<Cmd<F, B>> = seq![
            Cmd::Alloc { slot: SCALARS, elem: Elem::Scalar, len: s.witness_len() },
        ];
        assert(log =~= head + passes + scalars + buffers + round);
        let d1 = crate::field_device::run(idle, head);
        crate::field_device::run_five(idle, head);
        let d2 = crate::field_device::run(d1, passes);
        let d3 = crate::field_device::run(d2, scalars);
        reveal_with_fuel(crate::field_device::run, 2);
        assert(d3 == crate::field_device::step(d2, scalars[0]));
        let d4 = crate::field_device::run(d3, buffers);
        crate::field_device::run_concat(idle, head, passes);
        crate::field_device::run_concat(idle, head + passes, scalars);
        crate::field_device::run_concat(idle, head + passes + scalars, buffers);
        crate::field_device::run_concat(idle, head + passes + scalars + buffers, round);
        let f = crate::reference::values(poly);
        let us = crate::reference::values(points);
        assert(d1.slots[t.poly] == f && d1.slots[t.points] == us);
        assert(d1.slots[t.witnesses].len() == s.total_witnesses());
        assert(d1.slots[t.carries].len() == s.total_carries());
        crate::field_device::passes_on_device::<F, B>(d1, t, s, f, us);
        assert(d2.slots[WITNESSES] =~= all_witnesses(poly, points));
        let r = no_report();
        round_keeps::<F, B>(d3, p, crate::witness_commit::sizes_of(p), r, SCALARS);
        round_keeps::<F, B>(d3, p, crate::witness_commit::sizes_of(p), r, WITNESSES);
        witness_round::<F, B>(d4, poly, points, p, 0);
    } else {
        let before = witness_log(poly, points, bases, s, p, reports, (i - 1) as nat);
        let rest = msm_rest::<F, B>(p, crate::witness_commit::sizes_of(p), reports[i - 1]);
        witness_rounds(poly, points, bases, s, p, reports, (i - 1) as nat);
        let d1 = crate::field_device::run(idle, before);
        let d2 = crate::field_device::run(d1, rest);
        crate::field_device::run_concat(idle, before, rest);
        crate::field_device::run_concat(idle, before + rest, round);
        round_keeps::<F, B>(d1, p, crate::witness_commit::sizes_of(p), reports[i - 1], SCALARS);
        round_keeps::<F, B>(d1, p, crate::witness_commit::sizes_of(p), reports[i - 1], WITNESSES);
        witness_round::<F, B>(d2, poly, points, p, i);
    }
}

/// The scalars of round `i` of a batch of polynomials.
proof fn batch_rounds<F: PrimeField, B>(
    polys: Seq<Seq<F>>,
    bases: Seq<B>,
    zero: F,
    p: SortedMsmParams,
    reports: Seq<MsmReport>,
    i: nat,
)
    requires
        i < polys.len(),
        p.n_bases <= u32::MAX,
        forall|k: int| 0 <= k < polys.len() ==> (#[trigger] polys[k]).len() <= p.n_bases,
    ensures
        ({
            let e = crate::field_device::run(
                crate::field_device::idle(),
                batch_log(polys, bases, zero, p, reports, i),
            );
            &&& e.slots[crate::batch_commit::PADDED].len() == p.n_bases
            &&& e.slots[SCALARS] == crate::reference::values(
                crate::batch_commit::padded(polys[i as int], p.n_bases as nat, zero),
            )
        }),
    decreases i,
{
    let idle = crate::field_device::idle();
    let round = crate::batch_commit::batch_round_plan::<F, B>(polys[i as int], zero, p);
    let padded = crate::batch_commit::PADDED;
    if i == 0 {
        let log = batch_log(polys, bases, zero, p, reports, i);
        let buffers = crate::fused_msm::buffers_plan::<F, B>(crate::witness_commit::sizes_of(p));
        let head: Seq<Cmd<F, B>> = log.take(3);
        assert(log =~= head + buffers + round);
        let d1 = crate::field_device::run(idle, head);
        crate::field_device::run_three(idle, head);
        let d2 = crate::field_device::run(d1, buffers);
        crate::field_device::run_concat(idle, head, buffers);
        crate::field_device::run_concat(idle, head + buffers, round);
        let r = no_report();
        round_keeps::<F, B>(d1, p, crate::witness_commit::sizes_of(p), r, SCALARS);
        round_keeps::<F, B>(d1, p, crate::witness_commit::sizes_of(p), r, padded);
        batch_round::<F, B>(d2, polys[0], zero, p);
    } else {
        let before = batch_log(polys, bases, zero, p, reports, (i - 1) as nat);
        let rest = msm_rest::<F, B>(p, crate::witness_commit::sizes_of(p), reports[i - 1]);
        batch_rounds(polys, bases, zero, p, reports, (i - 1) as nat);
        let d1 = crate::field_device::run(idle, before);
        let d2 = crate::field_device::run(d1, rest);
        crate::field_device::run_concat(idle, before, rest);
        crate::field_device::run_concat(idle, before + rest, round);
        round_keeps::<F, B>(d1, p, crate::witness_commit::sizes_of(p), reports[i - 1], SCALARS);
        round_keeps::<F, B>(d1, p, crate::witness_commit::sizes_of(p), reports[i - 1], padded);
        batch_round::<F, B>(d2, polys[i as int], zero, p);
    }
}

/// The MSM of round `i` works on the witness polynomial of point `i`.
pub proof fn witness_scalars<F: PrimeField, B>(
    poly: Seq<F>,
    points: Seq<F>,
    bases: Seq<B>,
    s: WitnessShape,
    p: SortedMsmParams,
    reports: Seq<MsmReport>,
    i: nat,
)
    requires
        poly.len() >= 2,
        s.wf(),
        s.poly_len == poly.len(),
        s.num_points == points.len(),
        p.n_bases == poly.len() - 1,
        i < points.len(),
        poly.len() <= u32::MAX,
        points.len() <= u32::MAX,
        points.len() * (poly.len() - 1) <= u32::MAX,
    ensures
        scalars_of(witness_log(poly, points, bases, s, p, reports, i)) == witness_of(
            poly,
            points,
            i as int,
        ),
{
    witness_rounds(poly, points, bases, s, p, reports, i);
}

/// The MSM of round `i` works on polynomial `i` of a batch, with zeros behind it.
pub proof fn batch_scalars<F: PrimeField, B>(
    polys: Seq<Seq<F>>,
    bases: Seq<B>,
    zero: F,
    p: SortedMsmParams,
    reports: Seq<MsmReport>,
    i: nat,
)
    requires
        i < polys.len(),
        p.n_bases <= u32::MAX,
        p.n_bases == crate::batch_commit::longest(polys),
    ensures
        scalars_of(batch_log(polys, bases, zero, p, reports, i)) == crate::reference::values(
            crate::batch_commit::padded(polys[i as int], p.n_bases as nat, zero),
        ),
{
    assert forall|k: int| 0 <= k < polys.len() implies (#[trigger] polys[k]).len()
        <= p.n_bases by {
        crate::batch_commit::longest_bounds(polys, k);
    }
    batch_rounds(polys, bases, zero, p, reports, i);
}

proof fn longest_of_equal<F>(polys: Seq<Seq<F>>, n: nat)
    requires
        polys.len() > 0,
        forall|k: int| 0 <= k < polys.len() ==> (#[trigger] polys[k]).len() == n,
    ensures
        crate::batch_commit::longest(polys) == n,
    decreases polys.len(),
{
    let rest = polys.drop_last();
    assert(polys.last() == polys[polys.len() - 1]);
    if rest.len() > 0 {
        assert forall|k: int| 0 <= k < rest.len() implies (#[trigger] rest[k]).len() == n by {
            assert(rest[k] == polys[k]);
        }
        longest_of_equal(rest, n);
    } else {
        assert(crate::batch_commit::longest(rest) == 0);
    }
}

/// Numbers that are not negative.
pub open spec fn naturals(s: Seq<int>) -> Seq<nat> {
    s.map_values(|v: int| v as nat)
}

/// Committing to the witness polynomials in one session is the same as computing the witness
/// polynomials, and committing to them as a batch. For each point, in the order of the points, the
/// MSMs of the two sessions work with the same parameters on the same bases and on the same scalars,
/// which are the witness polynomial of the point, so that the commitments are the same: the sum of
/// the multiples of the bases by the elements of the witness polynomial.
///
/// `rows` are the witness polynomials as the session for witness polynomials alone hands them out,
/// and the two runs are what the MSMs of round `i` leave on the device, as in
/// [`crate::sorted_sum::sorted_msm_is_sum_of_multiples`]. The lengths that kernels are told are 32
/// bit words, so that the law needs lengths that fit.
pub proof fn witnesses_commit_like_batch<G: Group, F: PrimeField, B>(
    c: Set<G::Point>,
    act: spec_fn(int, G::Point) -> G::Point,
    base_points: Seq<G::Point>,
    poly: Seq<F>,
    points: Seq<F>,
    bases: Seq<B>,
    rows: Seq<Seq<F>>,
    zero: F,
    work_units: nat,
    s: WitnessShape,
    p: SortedMsmParams,
    reports: (Seq<MsmReport>, Seq<MsmReport>),
    i: nat,
    runs: (SortedRun<G::Point>, SortedRun<G::Point>),
)
    requires
        crate::group::abelian::<G>(c),
        crate::single_multiexp::integer_action::<G>(c, act),
        crate::group::all_in(c, base_points),
        base_points.len() == poly.len() - 1,
        poly.len() >= 2,
        poly.len() <= u32::MAX,
        points.len() <= u32::MAX,
        points.len() * (poly.len() - 1) <= u32::MAX,
        bases.len() >= poly.len() - 1,
        F::order() <= vstd::arithmetic::power2::pow2(BN254_SCALAR_BITS as nat),
        s.wf(),
        s.poly_len == poly.len(),
        s.num_points == points.len(),
        p == crate::fused_commit::commit_params((poly.len() - 1) as nat, work_units),
        p.fits(),
        i < points.len(),
        rows.len() == points.len(),
        forall|k: int|
            0 <= k < rows.len() ==> crate::reference::values(#[trigger] rows[k])
                == crate::field_device::row_of(
                crate::field_device::outputs(
                    crate::poly_ops::witness_batch_plan(poly, points),
                )[0],
                k,
                (poly.len() - 1) as nat,
            ),
        crate::sorted_sum::ran::<G>(
            runs.0,
            act,
            base_points,
            naturals(scalars_of(witness_log(poly, points, bases, s, p, reports.0, i))),
            p,
        ),
        crate::sorted_sum::ran::<G>(
            runs.1,
            act,
            base_points,
            naturals(scalars_of(batch_log(rows, bases, zero, p, reports.1, i))),
            p,
        ),
    ensures
        p == crate::fused_commit::commit_params(crate::batch_commit::longest(rows), work_units),
        ({
            let upload: Cmd<F, B> = Cmd::Upload {
                slot: BASES,
                data: DataView::Bases(bases.take(poly.len() - 1)),
            };
            &&& witness_log(poly, points, bases, s, p, reports.0, 0)[2] == upload
            &&& batch_log(rows, bases, zero, p, reports.1, 0)[0] == upload
        }),
        scalars_of(witness_log(poly, points, bases, s, p, reports.0, i)) == witness_of(
            poly,
            points,
            i as int,
        ),
        crate::reference::values(rows[i as int]) == witness_of(poly, points, i as int),
        runs.0.result == runs.1.result,
        runs.0.result == crate::sorted_sum::multiples::<G>(
            act,
            base_points,
            naturals(crate::reference::values(rows[i as int])),
        ),
{
    let n = (poly.len() - 1) as nat;
    assert forall|k: int| 0 <= k < rows.len() implies (#[trigger] rows[k]).len() == n
        && crate::reference::values(rows[k]) == witness_of(poly, points, k) by {
        crate::field_device::witnesses_are_one_by_one(poly, points, k);
        assert(crate::reference::values(rows[k]).len() == rows[k].len());
    }
    longest_of_equal(rows, n);
    witness_rounds(poly, points, bases, s, p, reports.0, i);
    batch_rounds(rows, bases, zero, p, reports.1, i);
    assert(crate::batch_commit::padded(rows[i as int], n, zero) =~= rows[i as int]);
    let scalars = naturals(crate::reference::values(rows[i as int]));
    assert forall|j: int| 0 <= j < scalars.len() implies #[trigger] scalars[j]
        < vstd::arithmetic::power2::pow2(p.effective_bits as nat) by {
        rows[i as int][j].in_range();
    }
    crate::sorted_sum::sorted_msm_is_sum_of_multiples::<G>(
        c,
        act,
        base_points,
        scalars,
        p,
        runs.0,
    );
    crate::sorted_sum::sorted_msm_is_sum_of_multiples::<G>(
        c,
        act,
        base_points,
        scalars,
        p,
        runs.1,
    );
}

/// Zeros behind a polynomial add nothing to its commitment.
pub proof fn padding_adds_nothing<G: Group, F: PrimeField>(
    c: Set<G::Point>,
    act: spec_fn(int, G::Point) -> G::Point,
    base_points: Seq<G::Point>,
    poly: Seq<F>,
    zero: F,
)
    requires
        crate::group::abelian::<G>(c),
        crate::single_multiexp::integer_action::<G>(c, act),
        crate::group::all_in(c, base_points),
        poly.len() <= base_points.len(),
        zero.value() == 0,
    ensures
        crate::sorted_sum::multiples::<G>(
            act,
            base_points,
            naturals(
                crate::reference::values(
                    crate::batch_commit::padded(poly, base_points.len(), zero),
                ),
            ),
        ) == crate::sorted_sum::multiples::<G>(
            act,
            base_points.take(poly.len() as int),
            naturals(crate::reference::values(poly)),
        ),
    decreases base_points.len() - poly.len(),
{
    let n = base_points.len();
    let all = naturals(crate::reference::values(crate::batch_commit::padded(poly, n, zero)));
    if n == poly.len() {
        assert(crate::batch_commit::padded(poly, n, zero) =~= poly);
        assert(base_points.take(n as int) =~= base_points);
    } else {
        let fewer = base_points.drop_last();
        let m = (n - 1) as nat;
        padding_adds_nothing::<G, F>(c, act, fewer, poly, zero);
        assert(fewer.take(poly.len() as int) =~= base_points.take(poly.len() as int));
        let short = naturals(crate::reference::values(crate::batch_commit::padded(poly, m, zero)));
        let terms = Seq::new(n, |j: int| act(all[j] as int, base_points[j]));
        let less = Seq::new(m, |j: int| act(short[j] as int, fewer[j]));
        assert(terms.drop_last() =~= less);
        assert(c.contains(base_points[n - 1]));
        assert(terms.last() == G::identity());
        assert forall|j: int| 0 <= j < less.len() implies c.contains(#[trigger] less[j]) by {
            assert(c.contains(base_points[j]));
        }
        crate::group::add_all_in::<G>(c, G::identity(), less);
        let sum = crate::group::sum::<G>(less);
        assert(G::plus(sum, G::identity()) == G::plus(G::identity(), sum));
    }
}

/// A batch commits to each of its polynomials, in order. All rounds work with the parameters of the
/// longest polynomial, on as many bases. The MSM of round `i` works on polynomial `i` with zeros
/// behind it, so that its commitment is the sum of the multiples of the bases by these elements,
/// which is that of the first bases by the elements of the polynomial alone.
///
/// `run` is what the MSM of round `i` leaves on the device, as in
/// [`crate::sorted_sum::sorted_msm_is_sum_of_multiples`]. The lengths that kernels are told are 32
/// bit words, so that the law needs lengths that fit.
pub proof fn batch_commits_to_each<G: Group, F: PrimeField, B>(
    c: Set<G::Point>,
    act: spec_fn(int, G::Point) -> G::Point,
    base_points: Seq<G::Point>,
    polys: Seq<Seq<F>>,
    bases: Seq<B>,
    zero: F,
    work_units: nat,
    p: SortedMsmParams,
    reports: Seq<MsmReport>,
    i: nat,
    run: SortedRun<G::Point>,
)
    requires
        crate::group::abelian::<G>(c),
        crate::single_multiexp::integer_action::<G>(c, act),
        crate::group::all_in(c, base_points),
        base_points.len() == crate::batch_commit::longest(polys),
        crate::batch_commit::longest(polys) <= u32::MAX,
        F::order() <= vstd::arithmetic::power2::pow2(BN254_SCALAR_BITS as nat),
        zero.value() == 0,
        p == crate::fused_commit::commit_params(crate::batch_commit::longest(polys), work_units),
        p.fits(),
        i < polys.len(),
        crate::sorted_sum::ran::<G>(
            run,
            act,
            base_points,
            naturals(scalars_of(batch_log(polys, bases, zero, p, reports, i))),
            p,
        ),
    ensures
        batch_log(polys, bases, zero, p, reports, 0)[0] == (Cmd::<F, B>::Upload {
            slot: BASES,
            data: DataView::Bases(bases.take(crate::batch_commit::longest(polys) as int)),
        }),
        scalars_of(batch_log(polys, bases, zero, p, reports, i)) == crate::reference::values(
            crate::batch_commit::padded(polys[i as int], p.n_bases as nat, zero),
        ),
        run.result == crate::sorted_sum::multiples::<G>(
            act,
            base_points,
            naturals(
                crate::reference::values(
                    crate::batch_commit::padded(polys[i as int], p.n_bases as nat, zero),
                ),
            ),
        ),
        run.result == crate::sorted_sum::multiples::<G>(
            act,
            base_points.take(polys[i as int].len() as int),
            naturals(crate::reference::values(polys[i as int])),
        ),
{
    let n = crate::batch_commit::longest(polys);
    assert forall|k: int| 0 <= k < polys.len() implies (#[trigger] polys[k]).len()
        <= p.n_bases by {
        crate::batch_commit::longest_bounds(polys, k);
    }
    batch_rounds(polys, bases, zero, p, reports, i);
    let padded = crate::batch_commit::padded(polys[i as int], n, zero);
    let scalars = naturals(crate::reference::values(padded));
    assert forall|j: int| 0 <= j < scalars.len() implies #[trigger] scalars[j]
        < vstd::arithmetic::power2::pow2(p.effective_bits as nat) by {
        padded[j].in_range();
    }
    crate::sorted_sum::sorted_msm_is_sum_of_multiples::<G>(c, act, base_points, scalars, p, run);
    padding_adds_nothing::<G, F>(c, act, base_points, polys[i as int], zero);
}

/// The MSM of round `i` of [`crate::fused_commit::FusedPolyCommit::fix_vars_and_commit`].
pub open spec fn fix_params(len: nat, work_units: nat, i: nat) -> SortedMsmParams {
    crate::fused_commit::commit_params(crate::poly_ops::halved(len, i + 1), work_units)
}

/// The session of [`crate::fused_commit::FusedPolyCommit::fix_vars_and_commit`] up to the first stage
/// of round `i`, given what the device reported in the rounds before.
/// [`crate::fused_commit::FixVarsAndCommit::follows`] says that it is.
pub open spec fn fix_log<F, B>(
    poly: Seq<F>,
    challenges: Seq<F>,
    bases: Seq<B>,
    work_units: nat,
    s: MsmSizes,
    reports: Seq<MsmReport>,
    i: nat,
) -> Seq<Cmd<F, B>>
    decreases i,
{
    let p = fix_params(poly.len(), work_units, i);
    if i == 0 {
        crate::fused_commit::fix_start_plan(poly, challenges, bases, s, p)
    } else {
        let j = (i - 1) as nat;
        fix_log(poly, challenges, bases, work_units, s, reports, j) + msm_rest(
            fix_params(poly.len(), work_units, j),
            s,
            reports[i - 1],
        ) + crate::fused_commit::fix_round_end(j) + crate::fused_commit::fix_round_plan(i, p, s)
    }
}

/// The rounds before round `i` are all that its log depends on.
pub proof fn fix_log_of_earlier<F, B>(
    poly: Seq<F>,
    challenges: Seq<F>,
    bases: Seq<B>,
    work_units: nat,
    s: MsmSizes,
    reports: Seq<MsmReport>,
    more: Seq<MsmReport>,
    i: nat,
)
    requires
        i <= reports.len(),
        i <= more.len(),
        reports.take(i as int) == more.take(i as int),
    ensures
        fix_log(poly, challenges, bases, work_units, s, reports, i) == fix_log(
            poly,
            challenges,
            bases,
            work_units,
            s,
            more,
            i,
        ),
    decreases i,
{
    if i > 0 {
        let j = i - 1;
        assert(reports.take(j) =~= reports.take(i as int).take(j));
        assert(more.take(j) =~= more.take(i as int).take(j));
        assert(reports[j] == reports.take(i as int)[j]);
        assert(more[j] == more.take(i as int)[j]);
        fix_log_of_earlier(poly, challenges, bases, work_units, s, reports, more, j as nat);
    }
}

/// The intermediate polynomial of round `i`.
pub open spec fn intermediate_of<F: PrimeField>(poly: Seq<F>, challenges: Seq<F>, i: nat) -> Seq<
    int,
> {
    crate::field_device::fixed_in_turn(
        crate::reference::values(poly),
        crate::reference::values(challenges),
        i + 1,
        F::order() as int,
    )
}

/// The first stage of round `i` makes the next intermediate polynomial, hands it out, and puts it in
/// the place of the scalars.
proof fn fix_round<F: PrimeField, B>(
    d: crate::field_device::FieldDevice,
    poly: Seq<F>,
    challenges: Seq<F>,
    work_units: nat,
    s: MsmSizes,
    i: nat,
)
    requires
        i < 64,
        i < challenges.len(),
        poly.len() / 2 <= u32::MAX,
        d.slots[crate::fused_commit::CHALLENGES] == crate::reference::values(challenges),
        d.slots[crate::fused_commit::poly_slot(i)] == crate::field_device::fixed_in_turn(
            crate::reference::values(poly),
            crate::reference::values(challenges),
            i,
            F::order() as int,
        ),
    ensures
        ({
            let p = fix_params(poly.len(), work_units, i);
            let e = crate::field_device::run(
                d,
                crate::fused_commit::fix_round_plan::<F, B>(i, p, s),
            );
            let new = intermediate_of(poly, challenges, i);
            &&& e.slots[crate::fused_commit::CHALLENGES] == crate::reference::values(challenges)
            &&& e.slots[crate::fused_commit::poly_slot(i + 1)] == new
            &&& e.slots[SCALARS] == new
            &&& e.outputs == d.outputs.push(new)
        }),
{
    let p = fix_params(poly.len(), work_units, i);
    let pv = crate::reference::values(poly);
    let cv = crate::reference::values(challenges);
    let q = F::order() as int;
    let n = crate::poly_ops::halved(poly.len(), i + 1);
    crate::field_device::fixed_in_turn_len(pv, cv, i, q);
    crate::field_device::fixed_in_turn_len(pv, cv, i + 1, q);
    crate::field_device::halved_at_most(poly.len(), i + 1);
    let plan = crate::fused_commit::fix_round_plan::<F, B>(i, p, s);
    let first = plan.take(5);
    let start = crate::fused_msm::msm_start_plan::<F, B>(SCALARS, p, s);
    assert(plan =~= first + start);
    crate::field_device::run_concat(d, first, start);
    crate::field_device::run_five(d, first);
    let from = crate::fused_commit::poly_slot(i);
    let to = crate::fused_commit::poly_slot(i + 1);
    let challenge_slot = crate::fused_commit::CHALLENGES;
    let old = crate::field_device::fixed_in_turn(pv, cv, i, q);
    let new = intermediate_of(poly, challenges, i);
    let e1 = crate::field_device::step(d, plan[0]);
    let e2 = crate::field_device::step(e1, plan[1]);
    let e3 = crate::field_device::step(e2, plan[2]);
    let e4 = crate::field_device::step(e3, plan[3]);
    let e5 = crate::field_device::step(e4, plan[4]);
    crate::field_device::groups_suffice(n, FIELD_WORK_SIZE);
    assert(p.n_bases == n);
    assert(from != to && to != SCALARS && to != challenge_slot);
    assert(e1.slots[from] == old && e1.slots[to] == crate::field_device::unknown(n));
    assert(e2.slots[to] =~= new);
    assert(new.take(n as int) =~= new);
    assert(e5.slots[SCALARS] =~= new);
    assert(e5.outputs =~= d.outputs.push(new));
    msm_parts_are_msm::<F, B>(p, s, no_report());
    crate::field_device::msm_leaves_fields(e5, start, SCALARS);
    crate::field_device::msm_leaves_fields(e5, start, to);
    crate::field_device::msm_leaves_fields(e5, start, challenge_slot);
}

proof fn fix_first_round<F: PrimeField, B>(
    poly: Seq<F>,
    challenges: Seq<F>,
    bases: Seq<B>,
    work_units: nat,
    s: MsmSizes,
    reports: Seq<MsmReport>,
)
    requires
        challenges.len() > 0,
        poly.len() / 2 <= u32::MAX,
    ensures
        ({
            let e = crate::field_device::run(
                crate::field_device::idle(),
                fix_log(poly, challenges, bases, work_units, s, reports, 0),
            );
            let new = intermediate_of(poly, challenges, 0);
            &&& e.slots[crate::fused_commit::CHALLENGES] == crate::reference::values(challenges)
            &&& e.slots[crate::fused_commit::poly_slot(1)] == new
            &&& e.slots[SCALARS] == new
            &&& e.outputs == crate::field_device::idle().outputs.push(new)
        }),
{
    let idle = crate::field_device::idle();
    let p = fix_params(poly.len(), work_units, 0);
    let log = fix_log(poly, challenges, bases, work_units, s, reports, 0);
    let round = crate::fused_commit::fix_round_plan::<F, B>(0, p, s);
    let from = crate::fused_commit::poly_slot(0);
    let challenge_slot = crate::fused_commit::CHALLENGES;
    let buffers = crate::fused_msm::buffers_plan::<F, B>(s);
    let head: Seq<Cmd<F, B>> = log.take(3);
    assert(log =~= head + buffers + round);
    let d1 = crate::field_device::run(idle, head);
    crate::field_device::run_three(idle, head);
    let d2 = crate::field_device::run(d1, buffers);
    crate::field_device::run_concat(idle, head, buffers);
    crate::field_device::run_concat(idle, head + buffers, round);
    msm_parts_are_msm::<F, B>(p, s, no_report());
    crate::field_device::msm_leaves_fields(d1, buffers, from);
    crate::field_device::msm_leaves_fields(d1, buffers, challenge_slot);
    fix_round::<F, B>(d2, poly, challenges, work_units, s, 0);
}

/// What round `i` leaves on the device, and what has been handed out until then.
proof fn fix_rounds<F: PrimeField, B>(
    poly: Seq<F>,
    challenges: Seq<F>,
    bases: Seq<B>,
    work_units: nat,
    s: MsmSizes,
    reports: Seq<MsmReport>,
    i: nat,
)
    requires
        i < 64,
        i < challenges.len(),
        poly.len() / 2 <= u32::MAX,
    ensures
        ({
            let e = crate::field_device::run(
                crate::field_device::idle(),
                fix_log(poly, challenges, bases, work_units, s, reports, i),
            );
            let new = intermediate_of(poly, challenges, i);
            &&& e.slots[crate::fused_commit::CHALLENGES] == crate::reference::values(challenges)
            &&& e.slots[crate::fused_commit::poly_slot(i + 1)] == new
            &&& e.slots[SCALARS] == new
            &&& e.outputs == Seq::new(
                i + 1,
                |j: int| intermediate_of(poly, challenges, j as nat),
            )
        }),
    decreases i,
{
    let idle = crate::field_device::idle();
    let p = fix_params(poly.len(), work_units, i);
    let log = fix_log(poly, challenges, bases, work_units, s, reports, i);
    let round = crate::fused_commit::fix_round_plan::<F, B>(i, p, s);
    let want = Seq::new(i + 1, |j: int| intermediate_of(poly, challenges, j as nat));
    let challenge_slot = crate::fused_commit::CHALLENGES;
    let from = crate::fused_commit::poly_slot(i);
    if i == 0 {
        fix_first_round(poly, challenges, bases, work_units, s, reports);
        assert(idle.outputs.push(intermediate_of(poly, challenges, 0)) =~= want);
    } else {
        let j = (i - 1) as nat;
        let before = fix_log(poly, challenges, bases, work_units, s, reports, j);
        let rest = msm_rest::<F, B>(
            fix_params(poly.len(), work_units, j),
            s,
            reports[i - 1],
        );
        let end = crate::fused_commit::fix_round_end::<F, B>(j);
        fix_rounds(poly, challenges, bases, work_units, s, reports, j);
        let d1 = crate::field_device::run(idle, before);
        let d2 = crate::field_device::run(d1, rest);
        let d3 = crate::field_device::run(d2, end);
        crate::field_device::run_concat(idle, before, rest);
        crate::field_device::run_concat(idle, before + rest, end);
        crate::field_device::run_concat(idle, before + rest + end, round);
        msm_parts_are_msm::<F, B>(
            fix_params(poly.len(), work_units, j),
            s,
            reports[i - 1],
        );
        crate::field_device::msm_leaves_fields(d1, rest, from);
        crate::field_device::msm_leaves_fields(d1, rest, challenge_slot);
        crate::field_device::run_two(d2, end);
        assert(d3.slots[from] == d2.slots[from]);
        fix_round::<F, B>(d3, poly, challenges, work_units, s, i);
        assert(d3.outputs.push(intermediate_of(poly, challenges, i)) =~= want);
    }
}

/// The MSM of round `i` works on the intermediate polynomial of that round.
pub proof fn fix_scalars<F: PrimeField, B>(
    poly: Seq<F>,
    challenges: Seq<F>,
    bases: Seq<B>,
    work_units: nat,
    s: MsmSizes,
    reports: Seq<MsmReport>,
    i: nat,
)
    requires
        i < 64,
        i < challenges.len(),
        poly.len() / 2 <= u32::MAX,
    ensures
        scalars_of(fix_log(poly, challenges, bases, work_units, s, reports, i))
            == intermediate_of(poly, challenges, i),
{
    fix_rounds(poly, challenges, bases, work_units, s, reports, i);
}

/// The elements of an intermediate polynomial are residues.
pub proof fn intermediates_in_range<F: PrimeField>(poly: Seq<F>, challenges: Seq<F>, i: nat)
    requires
        i < challenges.len(),
        F::order() <= vstd::arithmetic::power2::pow2(BN254_SCALAR_BITS as nat),
    ensures
        ({
            let scalars = naturals(intermediate_of(poly, challenges, i));
            forall|j: int|
                0 <= j < scalars.len() ==> #[trigger] scalars[j] < vstd::arithmetic::power2::pow2(
                    BN254_SCALAR_BITS as nat,
                )
        }),
        ({
            let numbers = intermediate_of(poly, challenges, i);
            forall|j: int| 0 <= j < numbers.len() ==> #[trigger] numbers[j] >= 0
        }),
{
    challenges[0].in_range();
    let q = F::order() as int;
    let pv = crate::reference::values(poly);
    let cv = crate::reference::values(challenges);
    let scalars = naturals(intermediate_of(poly, challenges, i));
    let before = crate::field_device::fixed_in_turn(pv, cv, i, q);
    assert forall|j: int| 0 <= j < scalars.len() implies #[trigger] scalars[j]
        < vstd::arithmetic::power2::pow2(BN254_SCALAR_BITS as nat) by {
        vstd::arithmetic::div_mod::lemma_mod_bound(
            cv[i as int] * (before[2 * j + 1] - before[2 * j]) + before[2 * j],
            q,
        );
    }
    let numbers = intermediate_of(poly, challenges, i);
    assert forall|j: int| 0 <= j < numbers.len() implies #[trigger] numbers[j] >= 0 by {
        vstd::arithmetic::div_mod::lemma_mod_bound(
            cv[i as int] * (before[2 * j + 1] - before[2 * j]) + before[2 * j],
            q,
        );
    }
}

/// Fixing variables and committing in one session is the same as fixing the variables, and committing
/// to each intermediate polynomial. Up to round `i` the session hands out the same intermediate
/// polynomials as the session that fixes variables alone, and the MSM of round `i` works on the last
/// of them, so that its commitment is the sum of the multiples of the bases by its elements.
///
/// `run` is what the MSM of round `i` leaves on the device, as in
/// [`crate::sorted_sum::sorted_msm_is_sum_of_multiples`]. The lengths that kernels are told are 32
/// bit words, so that the law needs lengths that fit.
pub proof fn fixing_commits_to_intermediates<G: Group, F: PrimeField, B>(
    c: Set<G::Point>,
    act: spec_fn(int, G::Point) -> G::Point,
    base_points: Seq<G::Point>,
    poly: Seq<F>,
    challenges: Seq<F>,
    bases: Seq<B>,
    work_units: nat,
    s: MsmSizes,
    reports: Seq<MsmReport>,
    i: nat,
    run: SortedRun<G::Point>,
)
    requires
        crate::group::abelian::<G>(c),
        crate::single_multiexp::integer_action::<G>(c, act),
        crate::group::all_in(c, base_points),
        poly.len() <= usize::MAX,
        poly.len() / 2 <= u32::MAX,
        vstd::arithmetic::power2::is_pow2(poly.len() as int),
        challenges.len() <= crate::arith::log2(poly.len()),
        i < challenges.len(),
        base_points.len() == crate::poly_ops::halved(poly.len(), i + 1),
        F::order() <= vstd::arithmetic::power2::pow2(BN254_SCALAR_BITS as nat),
        fix_params(poly.len(), work_units, i).fits(),
        crate::sorted_sum::ran::<G>(
            run,
            act,
            base_points,
            naturals(
                scalars_of(fix_log(poly, challenges, bases, work_units, s, reports, i)),
            ),
            fix_params(poly.len(), work_units, i),
        ),
    ensures
        crate::field_device::outputs(
            fix_log(poly, challenges, bases, work_units, s, reports, i),
        ) == crate::field_device::outputs(
            crate::poly_ops::fix_vars_plan(poly, challenges),
        ).take(i as int + 1),
        run.result == crate::sorted_sum::multiples::<G>(
            act,
            base_points,
            naturals(
                crate::field_device::outputs(
                    crate::poly_ops::fix_vars_plan(poly, challenges),
                )[i as int],
            ),
        ),
{
    let p = fix_params(poly.len(), work_units, i);
    let q = F::order() as int;
    let pv = crate::reference::values(poly);
    let cv = crate::reference::values(challenges);
    challenges[0].in_range();
    crate::fused_commit::log_is_small(poly.len() as usize);
    crate::field_device::halved_at_most(poly.len(), i + 1);
    fix_rounds(poly, challenges, bases, work_units, s, reports, i);
    crate::field_device::fix_vars_outputs(poly, challenges);
    let all = crate::field_device::outputs(crate::poly_ops::fix_vars_plan(poly, challenges));
    let mine = crate::field_device::outputs(
        fix_log(poly, challenges, bases, work_units, s, reports, i),
    );
    assert(mine =~= all.take(i as int + 1));
    let new = intermediate_of(poly, challenges, i);
    crate::field_device::fixed_in_turn_len(pv, cv, i + 1, q);
    let scalars = naturals(new);
    intermediates_in_range(poly, challenges, i);
    crate::sorted_sum::sorted_msm_is_sum_of_multiples::<G>(c, act, base_points, scalars, p, run);
}

} // verus!
