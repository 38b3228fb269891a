//! Which commitments the fused operations hand out.
//!
//! The laws speak of every run of a session on a device whose kernels do what they are for, as
//! [`crate::field_device`] and [`crate::msm_device`] say it.

use vstd::prelude::*;

use crate::commit_laws::MsmReport;
use crate::field::PrimeField;
use crate::fused_msm::{MsmSizes, BN254_SCALAR_BITS};
use crate::group::Group;
use crate::msm_device::MsmDevice;
use crate::multiexp::SortedMsmParams;
use crate::sorted_msm::{BASES, NUM_NONEMPTY, OFFSETS, SCALARS};
use crate::witness::WitnessShape;

verus! {

/// How many times words are handed to the host in the first `i` rounds.
pub open spec fn reads_before(reports: Seq<MsmReport>, i: nat) -> nat
    decreases i,
{
    if i == 0 {
        0
    } else {
        reads_before(reports, (i - 1) as nat) + crate::fused_laws::reads_of(reports[i - 1])
    }
}

/// Whether the first `i` reports are what the device handed to the host.
pub open spec fn all_reported(out: Seq<Seq<u32>>, reports: Seq<MsmReport>, i: nat) -> bool {
    forall|k: nat|
        k < i ==> crate::fused_laws::reported(out, #[trigger] reads_before(reports, k), reports[k as int])
}

/// Whether a device has handed out nothing yet, and holds no numbers.
pub open spec fn fresh<P>(d: MsmDevice<P>) -> bool {
    &&& d.numbers == crate::field_device::idle()
    &&& d.words_out.len() == 0
    &&& d.points_out.len() == 0
}

/// Whether what a device handed to the host is the beginning of `out`.
pub open spec fn heads<P>(d: MsmDevice<P>, out: Seq<Seq<u32>>) -> bool {
    forall|j: int| 0 <= j < d.words_out.len() ==> #[trigger] d.words_out[j] == out[j]
}

/// Whether a device is ready for the next MSM.
pub open spec fn between_rounds<P>(d: MsmDevice<P>, bases: Seq<P>, s: MsmSizes) -> bool {
    &&& crate::fused_laws::has_room(d, s)
    &&& d.points[BASES] == bases
}

/// Whether a device is through with the first stage of an MSM.
pub open spec fn in_round<P>(
    d: MsmDevice<P>,
    bases: Seq<P>,
    scalars: Seq<nat>,
    p: SortedMsmParams,
    s: MsmSizes,
    at: nat,
) -> bool {
    &&& crate::fused_laws::has_room(d, s)
    &&& crate::msm_laws::counted_on(d, bases, scalars, p)
    &&& d.words_out.len() == at + 2
    &&& d.words_out[at as int] == d.words[NUM_NONEMPTY]
    &&& d.words_out[at as int + 1] == d.words[OFFSETS]
}

/// The first stage of an MSM, from a device that is ready for it.
proof fn round_starts<G: Group, F: PrimeField, B>(
    c: Set<G::Point>,
    of: spec_fn(B) -> G::Point,
    act: spec_fn(int, G::Point) -> G::Point,
    bases: Seq<G::Point>,
    numbers: Seq<int>,
    p: SortedMsmParams,
    s: MsmSizes,
    at: nat,
    states: Seq<MsmDevice<G::Point>>,
)
    requires
        crate::msm_laws::msm_ok::<G>(
            c,
            act,
            bases,
            crate::commit_laws::naturals(numbers),
            p,
        ),
        forall|j: int| 0 <= j < numbers.len() ==> #[trigger] numbers[j] >= 0,
        s.covers(p),
        between_rounds(states[0], bases, s),
        states[0].standard.contains(SCALARS),
        states[0].words_out.len() == at,
        states.last().numbers.slots[SCALARS] == numbers,
        crate::msm_device::runs::<G, F, B>(
            of,
            act,
            crate::fused_msm::msm_start_plan::<F, B>(SCALARS, p, s),
            states,
        ),
    ensures
        in_round(
            states.last(),
            bases,
            crate::commit_laws::naturals(numbers),
            p,
            s,
            at,
        ),
        states.last().points_out == states[0].points_out,
{
    let scalars = crate::commit_laws::naturals(numbers);
    let log = crate::fused_msm::msm_start_plan::<F, B>(SCALARS, p, s);
    crate::commit_laws::msm_parts_are_msm::<F, B>(
        p,
        s,
        MsmReport::of_offsets(0, Seq::empty()),
    );
    crate::fused_laws::msm_keeps_numbers::<G, F, B>(of, act, log, states, SCALARS);
    assert(crate::sorted_laws::holds_scalars(states[0], SCALARS, scalars, p));
    crate::fused_laws::fused_start_counts::<G, F, B>(
        c,
        of,
        act,
        SCALARS,
        bases,
        scalars,
        p,
        s,
        states,
    );
}

/// The scalars of round `i` of a batch.
spec fn batch_numbers<F: PrimeField>(polys: Seq<Seq<F>>, zero: F, p: SortedMsmParams, i: nat) -> Seq<
    int,
> {
    crate::reference::values(
        crate::batch_commit::padded(polys[i as int], p.n_bases as nat, zero),
    )
}

spec fn batch_commitment<G: Group, F: PrimeField>(
    act: spec_fn(int, G::Point) -> G::Point,
    bases: Seq<G::Point>,
    polys: Seq<Seq<F>>,
    zero: F,
    p: SortedMsmParams,
    i: nat,
) -> Seq<G::Point> {
    seq![
        crate::sorted_sum::multiples::<G>(
            act,
            bases.take(p.n_bases as int),
            crate::commit_laws::naturals(batch_numbers(polys, zero, p, i)),
        ),
    ]
}

spec fn batch_ok<G: Group, F: PrimeField>(
    c: Set<G::Point>,
    act: spec_fn(int, G::Point) -> G::Point,
    bases: Seq<G::Point>,
    polys: Seq<Seq<F>>,
    work_units: nat,
    p: SortedMsmParams,
) -> bool {
    &&& crate::group::abelian::<G>(c)
    &&& crate::single_multiexp::integer_action::<G>(c, act)
    &&& crate::group::all_in(c, bases)
    &&& bases.len() == crate::batch_commit::longest(polys)
    &&& crate::batch_commit::longest(polys) <= u32::MAX
    &&& F::order() <= vstd::arithmetic::power2::pow2(BN254_SCALAR_BITS as nat)
    &&& p == crate::fused_commit::commit_params(crate::batch_commit::longest(polys), work_units)
    &&& crate::sorted_laws::words_fit(p)
}

proof fn batch_msm_ok<G: Group, F: PrimeField>(
    c: Set<G::Point>,
    act: spec_fn(int, G::Point) -> G::Point,
    bases: Seq<G::Point>,
    polys: Seq<Seq<F>>,
    zero: F,
    work_units: nat,
    p: SortedMsmParams,
    i: nat,
)
    requires
        batch_ok::<G, F>(c, act, bases, polys, work_units, p),
        i < polys.len(),
    ensures
        p.n_bases == bases.len(),
        polys[i as int].len() <= p.n_bases,
        forall|j: int|
            0 <= j < batch_numbers(polys, zero, p, i).len() ==> #[trigger] batch_numbers(
                polys,
                zero,
                p,
                i,
            )[j] >= 0,
        crate::msm_laws::msm_ok::<G>(
            c,
            act,
            bases,
            crate::commit_laws::naturals(batch_numbers(polys, zero, p, i)),
            p,
        ),
        crate::witness_commit::sizes_of(p).covers(p),
{
    p.bounds();
    crate::batch_commit::longest_bounds(polys, i as int);
    let padded = crate::batch_commit::padded(polys[i as int], p.n_bases as nat, zero);
    let scalars = crate::commit_laws::naturals(batch_numbers(polys, zero, p, i));
    assert forall|j: int| 0 <= j < scalars.len() implies #[trigger] scalars[j]
        < vstd::arithmetic::power2::pow2(p.effective_bits as nat) by {
        padded[j].in_range();
    }
}

/// The round of a polynomial, up to where the first stage of its MSM is done.
#[verifier::spinoff_prover]
proof fn batch_round_runs<G: Group, F: PrimeField, B>(
    c: Set<G::Point>,
    of: spec_fn(B) -> G::Point,
    act: spec_fn(int, G::Point) -> G::Point,
    bases: Seq<G::Point>,
    polys: Seq<Seq<F>>,
    zero: F,
    work_units: nat,
    p: SortedMsmParams,
    i: nat,
    at: nat,
    states: Seq<MsmDevice<G::Point>>,
)
    requires
        batch_ok::<G, F>(c, act, bases, polys, work_units, p),
        i < polys.len(),
        between_rounds(states[0], bases, crate::witness_commit::sizes_of(p)),
        states[0].words_out.len() == at,
        states.last().numbers.slots[SCALARS] == batch_numbers(polys, zero, p, i),
        crate::msm_device::runs::<G, F, B>(
            of,
            act,
            crate::batch_commit::batch_round_plan::<F, B>(polys[i as int], zero, p),
            states,
        ),
    ensures
        in_round(
            states.last(),
            bases,
            crate::commit_laws::naturals(batch_numbers(polys, zero, p, i)),
            p,
            crate::witness_commit::sizes_of(p),
            at,
        ),
        states.last().points_out == states[0].points_out,
{
    let s = crate::witness_commit::sizes_of(p);
    let plan = crate::batch_commit::batch_round_plan::<F, B>(polys[i as int], zero, p);
    let pre = plan.take(2);
    let start = crate::fused_msm::msm_start_plan::<F, B>(SCALARS, p, s);
    assert(plan =~= pre + start);
    crate::msm_device::runs_in_two::<G, F, B>(of, act, pre, start, states);
    batch_msm_ok::<G, F>(c, act, bases, polys, zero, work_units, p, i);
    let first = states.take(3);
    assert(pre[0] is Write && pre[1] is Launch);
    let d = first[2];
    assert(d.points == states[0].points && d.words == states[0].words && d.digits
        == states[0].digits);
    assert(d.standard.contains(SCALARS));
    round_starts::<G, F, B>(
        c,
        of,
        act,
        bases,
        batch_numbers(polys, zero, p, i),
        p,
        s,
        at,
        states.skip(2),
    );
}

/// The session of a batch up to the first stage of round `i`.
#[verifier::spinoff_prover]
proof fn batch_log_runs<G: Group, F: PrimeField, B>(
    c: Set<G::Point>,
    of: spec_fn(B) -> G::Point,
    act: spec_fn(int, G::Point) -> G::Point,
    bases: Seq<B>,
    polys: Seq<Seq<F>>,
    zero: F,
    work_units: nat,
    p: SortedMsmParams,
    reports: Seq<MsmReport>,
    i: nat,
    out: Seq<Seq<u32>>,
    states: Seq<MsmDevice<G::Point>>,
)
    requires
        bases.len() >= p.n_bases,
        batch_ok::<G, F>(
            c,
            act,
            bases.take(p.n_bases as int).map_values(of),
            polys,
            work_units,
            p,
        ),
        i < polys.len(),
        fresh(states[0]),
        heads(states.last(), out),
        all_reported(out, reports, i),
        crate::msm_device::runs::<G, F, B>(
            of,
            act,
            crate::commit_laws::batch_log(polys, bases, zero, p, reports, i),
            states,
        ),
    ensures
        in_round(
            states.last(),
            bases.take(p.n_bases as int).map_values(of),
            crate::commit_laws::naturals(batch_numbers(polys, zero, p, i)),
            p,
            crate::witness_commit::sizes_of(p),
            reads_before(reports, i),
        ),
        states.last().points_out == Seq::new(
            i,
            |k: int|
                batch_commitment::<G, F>(
                    act,
                    bases.take(p.n_bases as int).map_values(of),
                    polys,
                    zero,
                    p,
                    k as nat,
                ),
        ),
    decreases i,
{
    let n = p.n_bases as int;
    let held = bases.take(n).map_values(of);
    let s = crate::witness_commit::sizes_of(p);
    let log = crate::commit_laws::batch_log(polys, bases, zero, p, reports, i);
    let round = crate::batch_commit::batch_round_plan::<F, B>(polys[i as int], zero, p);
    crate::msm_device::numbers_run::<G, F, B>(of, act, log, states);
    crate::commit_laws::batch_scalars(polys, bases, zero, p, reports, i);
    if i == 0 {
        let head = log.take(3);
        let buffers = crate::fused_msm::buffers_plan::<F, B>(s);
        assert(log =~= head + (buffers + round));
        crate::msm_device::runs_in_two::<G, F, B>(of, act, head, buffers + round, states);
        let s1 = states.take(4);
        let t1 = states.skip(3);
        assert(head[0] is Upload && head[1] is Upload && head[2] is Alloc);
        assert(s1[3].points[BASES] == held);
        crate::msm_device::runs_in_two::<G, F, B>(of, act, buffers, round, t1);
        let s2 = t1.take(buffers.len() as int + 1);
        let t2 = t1.skip(buffers.len() as int);
        crate::fused_laws::buffers_make_room::<G, F, B>(of, act, s, s2);
        assert(s2.last().points[BASES] == s2[0].points[BASES]);
        batch_round_runs::<G, F, B>(c, of, act, held, polys, zero, work_units, p, 0, 0, t2);
        assert(states.last().points_out =~= Seq::new(
            0,
            |k: int| batch_commitment::<G, F>(act, held, polys, zero, p, k as nat),
        ));
    } else {
        let o = (i - 1) as nat;
        let before = crate::commit_laws::batch_log(polys, bases, zero, p, reports, o);
        let rest = crate::commit_laws::msm_rest::<F, B>(p, s, reports[i - 1]);
        assert(log =~= before + (rest + round));
        crate::msm_device::runs_in_two::<G, F, B>(of, act, before, rest + round, states);
        let s1 = states.take(before.len() as int + 1);
        let t1 = states.skip(before.len() as int);
        crate::msm_device::words_out_grow::<G, F, B>(of, act, rest + round, t1);
        assert forall|j: int| 0 <= j < s1.last().words_out.len() implies #[trigger] s1.last().words_out[j]
            == out[j] by {
            assert(states.last().words_out[j] == s1.last().words_out[j]);
        }
        batch_log_runs::<G, F, B>(
            c,
            of,
            act,
            bases,
            polys,
            zero,
            work_units,
            p,
            reports,
            o,
            out,
            s1,
        );
        crate::msm_device::runs_in_two::<G, F, B>(of, act, rest, round, t1);
        let s2 = t1.take(rest.len() as int + 1);
        let t2 = t1.skip(rest.len() as int);
        crate::msm_device::words_out_grow::<G, F, B>(of, act, round, t2);
        assert forall|j: int| 0 <= j < s2.last().words_out.len() implies #[trigger] s2.last().words_out[j]
            == out[j] by {
            assert(states.last().words_out[j] == s2.last().words_out[j]);
        }
        batch_msm_ok::<G, F>(c, act, held, polys, zero, work_units, p, o);
        let at = reads_before(reports, o);
        assert(crate::fused_laws::reported(out, at, reports[o as int]));
        crate::fused_laws::fused_rest_gives_sum_of_multiples::<G, F, B>(
            c,
            of,
            act,
            held,
            crate::commit_laws::naturals(batch_numbers(polys, zero, p, o)),
            p,
            s,
            reports[o as int],
            at,
            out,
            s2,
        );
        assert(s2.last().points[BASES] == s2[0].points[BASES]);
        batch_round_runs::<G, F, B>(
            c,
            of,
            act,
            held,
            polys,
            zero,
            work_units,
            p,
            i,
            reads_before(reports, i),
            t2,
        );
        let want = Seq::new(
            i,
            |k: int| batch_commitment::<G, F>(act, held, polys, zero, p, k as nat),
        );
        assert(states.last().points_out =~= want);
    }
}

/// A batch commit hands out one commitment for each polynomial, in order: the sum of the multiples
/// of the first bases by the elements of the polynomial. After the MSM of round `i` the first
/// `i + 1` commitments have been handed out.
///
/// Whoever runs the session hands over what the device reported in each round. The numbers that
/// kernels are told are 32 bit words, and one bit of the words that stand for bases is the sign, so
/// that the law needs numbers that fit.
#[verifier::spinoff_prover]
pub proof fn batch_hands_out_commitments<G: Group, F: PrimeField, B>(
    c: Set<G::Point>,
    of: spec_fn(B) -> G::Point,
    act: spec_fn(int, G::Point) -> G::Point,
    bases: Seq<B>,
    polys: Seq<Seq<F>>,
    zero: F,
    work_units: nat,
    p: SortedMsmParams,
    reports: Seq<MsmReport>,
    i: nat,
    states: Seq<MsmDevice<G::Point>>,
)
    requires
        crate::group::abelian::<G>(c),
        crate::single_multiexp::integer_action::<G>(c, act),
        crate::group::all_in(c, bases.map_values(of)),
        bases.len() >= crate::batch_commit::longest(polys),
        F::order() <= vstd::arithmetic::power2::pow2(BN254_SCALAR_BITS as nat),
        zero.value() == 0,
        p == crate::fused_commit::commit_params(crate::batch_commit::longest(polys), work_units),
        crate::sorted_laws::words_fit(p),
        crate::batch_commit::longest(polys) <= u32::MAX,
        i < polys.len(),
        fresh(states[0]),
        all_reported(states.last().words_out, reports, i + 1),
        crate::msm_device::runs::<G, F, B>(
            of,
            act,
            crate::commit_laws::batch_log(polys, bases, zero, p, reports, i)
                + crate::commit_laws::msm_rest(
                p,
                crate::witness_commit::sizes_of(p),
                reports[i as int],
            ),
            states,
        ),
    ensures
        states.last().points_out.len() == i + 1,
        forall|k: int|
            0 <= k <= i ==> #[trigger] states.last().points_out[k] == seq![
                crate::sorted_sum::multiples::<G>(
                    act,
                    bases.map_values(of).take(polys[k].len() as int),
                    crate::commit_laws::naturals(crate::reference::values(polys[k])),
                ),
            ],
{
    let n = p.n_bases as int;
    let all = bases.map_values(of);
    let held = bases.take(n).map_values(of);
    let s = crate::witness_commit::sizes_of(p);
    let out = states.last().words_out;
    let log = crate::commit_laws::batch_log(polys, bases, zero, p, reports, i);
    let rest = crate::commit_laws::msm_rest::<F, B>(p, s, reports[i as int]);
    assert(n == crate::batch_commit::longest(polys));
    assert forall|j: int| 0 <= j < held.len() implies c.contains(#[trigger] held[j]) by {
        assert(c.contains(all[j]));
    }
    crate::msm_device::runs_in_two::<G, F, B>(of, act, log, rest, states);
    let s1 = states.take(log.len() as int + 1);
    let t1 = states.skip(log.len() as int);
    crate::msm_device::words_out_grow::<G, F, B>(of, act, rest, t1);
    assert forall|j: int| 0 <= j < s1.last().words_out.len() implies #[trigger] s1.last().words_out[j]
        == out[j] by {
        assert(states.last().words_out[j] == s1.last().words_out[j]);
    }
    batch_log_runs::<G, F, B>(
        c,
        of,
        act,
        bases,
        polys,
        zero,
        work_units,
        p,
        reports,
        i,
        out,
        s1,
    );
    batch_msm_ok::<G, F>(c, act, held, polys, zero, work_units, p, i);
    let at = reads_before(reports, i);
    assert(crate::fused_laws::reported(out, at, reports[i as int]));
    crate::fused_laws::fused_rest_gives_sum_of_multiples::<G, F, B>(
        c,
        of,
        act,
        held,
        crate::commit_laws::naturals(batch_numbers(polys, zero, p, i)),
        p,
        s,
        reports[i as int],
        at,
        out,
        t1,
    );
    assert forall|k: int| 0 <= k <= i implies #[trigger] states.last().points_out[k] == seq![
        crate::sorted_sum::multiples::<G>(
            act,
            all.take(polys[k].len() as int),
            crate::commit_laws::naturals(crate::reference::values(polys[k])),
        ),
    ] by {
        assert(states.last().points_out[k] == batch_commitment::<G, F>(
            act,
            held,
            polys,
            zero,
            p,
            k as nat,
        ));
        assert(held.take(n) =~= held);
        crate::batch_commit::longest_bounds(polys, k);
        crate::commit_laws::padding_adds_nothing::<G, F>(c, act, held, polys[k], zero);
        assert(held.take(polys[k].len() as int) =~= all.take(polys[k].len() as int));
    }
}

spec fn witness_ok<G: Group, F: PrimeField>(
    c: Set<G::Point>,
    act: spec_fn(int, G::Point) -> G::Point,
    bases: Seq<G::Point>,
    poly: Seq<F>,
    points: Seq<F>,
    work_units: nat,
    shape: WitnessShape,
    p: SortedMsmParams,
) -> bool {
    &&& crate::group::abelian::<G>(c)
    &&& crate::single_multiexp::integer_action::<G>(c, act)
    &&& crate::group::all_in(c, bases)
    &&& bases.len() == poly.len() - 1
    &&& 2 <= poly.len() <= u32::MAX
    &&& points.len() <= u32::MAX
    &&& points.len() * (poly.len() - 1) <= u32::MAX
    &&& F::order() <= vstd::arithmetic::power2::pow2(BN254_SCALAR_BITS as nat)
    &&& shape.wf()
    &&& shape.poly_len == poly.len()
    &&& shape.num_points == points.len()
    &&& p == crate::fused_commit::commit_params((poly.len() - 1) as nat, work_units)
    &&& crate::sorted_laws::words_fit(p)
}

spec fn witness_commitment<G: Group, F: PrimeField>(
    act: spec_fn(int, G::Point) -> G::Point,
    bases: Seq<G::Point>,
    poly: Seq<F>,
    points: Seq<F>,
    i: int,
) -> Seq<G::Point> {
    seq![
        crate::sorted_sum::multiples::<G>(
            act,
            bases,
            crate::commit_laws::naturals(crate::commit_laws::witness_of(poly, points, i)),
        ),
    ]
}

proof fn witness_msm_ok<G: Group, F: PrimeField>(
    c: Set<G::Point>,
    act: spec_fn(int, G::Point) -> G::Point,
    bases: Seq<G::Point>,
    poly: Seq<F>,
    points: Seq<F>,
    work_units: nat,
    shape: WitnessShape,
    p: SortedMsmParams,
    i: int,
)
    requires
        witness_ok::<G, F>(c, act, bases, poly, points, work_units, shape, p),
        0 <= i < points.len(),
    ensures
        p.n_bases == bases.len(),
        p.n_bases == shape.witness_len(),
        bases.take(p.n_bases as int) == bases,
        forall|j: int|
            0 <= j < crate::commit_laws::witness_of(poly, points, i).len()
                ==> #[trigger] crate::commit_laws::witness_of(poly, points, i)[j] >= 0,
        crate::msm_laws::msm_ok::<G>(
            c,
            act,
            bases,
            crate::commit_laws::naturals(crate::commit_laws::witness_of(poly, points, i)),
            p,
        ),
        crate::witness_commit::sizes_of(p).covers(p),
{
    p.bounds();
    let q = F::order() as int;
    points[i].in_range();
    let f = crate::reference::values(poly);
    let u = points[i].value() as int;
    let w = crate::commit_laws::witness_of(poly, points, i);
    assert forall|j: int| 0 <= j < w.len() implies 0 <= #[trigger] w[j] < q by {
        vstd::arithmetic::div_mod::lemma_mod_bound(crate::reference::quotient(f, u)[j], q);
    }
    assert(bases.take(p.n_bases as int) =~= bases);
    let scalars = crate::commit_laws::naturals(w);
    assert forall|j: int| 0 <= j < scalars.len() implies #[trigger] scalars[j]
        < vstd::arithmetic::power2::pow2(p.effective_bits as nat) by {
        assert(0 <= w[j] < q);
    }
}

/// The round of a point, up to where the first stage of its MSM is done.
#[verifier::spinoff_prover]
proof fn witness_round_runs<G: Group, F: PrimeField, B>(
    c: Set<G::Point>,
    of: spec_fn(B) -> G::Point,
    act: spec_fn(int, G::Point) -> G::Point,
    bases: Seq<G::Point>,
    poly: Seq<F>,
    points: Seq<F>,
    work_units: nat,
    shape: WitnessShape,
    p: SortedMsmParams,
    i: nat,
    at: nat,
    states: Seq<MsmDevice<G::Point>>,
)
    requires
        witness_ok::<G, F>(c, act, bases, poly, points, work_units, shape, p),
        i < points.len(),
        between_rounds(states[0], bases, crate::witness_commit::sizes_of(p)),
        states[0].words_out.len() == at,
        states.last().numbers.slots[SCALARS] == crate::commit_laws::witness_of(
            poly,
            points,
            i as int,
        ),
        crate::msm_device::runs::<G, F, B>(
            of,
            act,
            crate::witness_commit::witness_round_plan::<F, B>(i, p),
            states,
        ),
    ensures
        in_round(
            states.last(),
            bases,
            crate::commit_laws::naturals(
                crate::commit_laws::witness_of(poly, points, i as int),
            ),
            p,
            crate::witness_commit::sizes_of(p),
            at,
        ),
        states.last().points_out == states[0].points_out,
{
    let s = crate::witness_commit::sizes_of(p);
    let plan = crate::witness_commit::witness_round_plan::<F, B>(i, p);
    let pre = plan.take(1);
    let start = crate::fused_msm::msm_start_plan::<F, B>(SCALARS, p, s);
    assert(plan =~= pre + start);
    crate::msm_device::runs_in_two::<G, F, B>(of, act, pre, start, states);
    witness_msm_ok::<G, F>(c, act, bases, poly, points, work_units, shape, p, i as int);
    let first = states.take(2);
    assert(pre[0] is Launch);
    let d = first[1];
    assert(d.points == states[0].points && d.words == states[0].words && d.digits
        == states[0].digits);
    assert(d.standard.contains(SCALARS));
    round_starts::<G, F, B>(
        c,
        of,
        act,
        bases,
        crate::commit_laws::witness_of(poly, points, i as int),
        p,
        s,
        at,
        states.skip(1),
    );
}

/// What comes before the buffers of the MSMs.
#[verifier::spinoff_prover]
proof fn witness_head_runs<G: Group, F: PrimeField, B>(
    of: spec_fn(B) -> G::Point,
    act: spec_fn(int, G::Point) -> G::Point,
    bases: Seq<B>,
    poly: Seq<F>,
    points: Seq<F>,
    shape: WitnessShape,
    p: SortedMsmParams,
    states: Seq<MsmDevice<G::Point>>,
)
    requires
        crate::msm_device::runs::<G, F, B>(
            of,
            act,
            crate::witness_commit::witness_start_plan(poly, points, bases, shape, p).take(10),
            states,
        ),
    ensures
        states.last().points[BASES] == bases.take(shape.witness_len() as int).map_values(of),
        states.last().words_out == states[0].words_out,
        states.last().points_out == states[0].points_out,
{
    let log = crate::witness_commit::witness_start_plan(poly, points, bases, shape, p).take(10);
    assert(log[0] is Upload && log[1] is Upload && log[2] is Upload && log[3] is Alloc && log[4]
        is Alloc && log[5] is Launch && log[6] is Alloc && log[7] is Launch && log[8] is Launch
        && log[9] is Alloc);
    assert(states[3].points[BASES] == bases.take(shape.witness_len() as int).map_values(of));
}

/// The session of the witness polynomials up to the first stage of round `i`.
#[verifier::spinoff_prover]
proof fn witness_log_runs<G: Group, F: PrimeField, B>(
    c: Set<G::Point>,
    of: spec_fn(B) -> G::Point,
    act: spec_fn(int, G::Point) -> G::Point,
    bases: Seq<B>,
    held: Seq<G::Point>,
    poly: Seq<F>,
    points: Seq<F>,
    work_units: nat,
    shape: WitnessShape,
    p: SortedMsmParams,
    reports: Seq<MsmReport>,
    i: nat,
    out: Seq<Seq<u32>>,
    states: Seq<MsmDevice<G::Point>>,
)
    requires
        held == bases.take(shape.witness_len() as int).map_values(of),
        witness_ok::<G, F>(c, act, held, poly, points, work_units, shape, p),
        i < points.len(),
        fresh(states[0]),
        heads(states.last(), out),
        all_reported(out, reports, i),
        crate::msm_device::runs::<G, F, B>(
            of,
            act,
            crate::commit_laws::witness_log(poly, points, bases, shape, p, reports, i),
            states,
        ),
    ensures
        in_round(
            states.last(),
            held,
            crate::commit_laws::naturals(
                crate::commit_laws::witness_of(poly, points, i as int),
            ),
            p,
            crate::witness_commit::sizes_of(p),
            reads_before(reports, i),
        ),
        states.last().points_out == Seq::new(
            i,
            |k: int| witness_commitment::<G, F>(act, held, poly, points, k),
        ),
    decreases i,
{
    let s = crate::witness_commit::sizes_of(p);
    let log = crate::commit_laws::witness_log(poly, points, bases, shape, p, reports, i);
    let round = crate::witness_commit::witness_round_plan::<F, B>(i, p);
    witness_msm_ok::<G, F>(c, act, held, poly, points, work_units, shape, p, i as int);
    crate::msm_device::numbers_run::<G, F, B>(of, act, log, states);
    crate::commit_laws::witness_scalars(poly, points, bases, shape, p, reports, i);
    if i == 0 {
        let head = log.take(10);
        let buffers = crate::fused_msm::buffers_plan::<F, B>(s);
        assert(log =~= head + (buffers + round));
        crate::msm_device::runs_in_two::<G, F, B>(of, act, head, buffers + round, states);
        let s1 = states.take(11);
        let t1 = states.skip(10);
        witness_head_runs::<G, F, B>(of, act, bases, poly, points, shape, p, s1);
        crate::msm_device::runs_in_two::<G, F, B>(of, act, buffers, round, t1);
        let s2 = t1.take(buffers.len() as int + 1);
        let t2 = t1.skip(buffers.len() as int);
        crate::fused_laws::buffers_make_room::<G, F, B>(of, act, s, s2);
        assert(s2.last().points[BASES] == s2[0].points[BASES]);
        witness_round_runs::<G, F, B>(
            c,
            of,
            act,
            held,
            poly,
            points,
            work_units,
            shape,
            p,
            0,
            0,
            t2,
        );
        assert(states.last().points_out =~= Seq::new(
            0,
            |k: int| witness_commitment::<G, F>(act, held, poly, points, k),
        ));
    } else {
        let o = (i - 1) as nat;
        let before = crate::commit_laws::witness_log(poly, points, bases, shape, p, reports, o);
        let rest = crate::commit_laws::msm_rest::<F, B>(p, s, reports[i - 1]);
        assert(log =~= before + (rest + round));
        crate::msm_device::runs_in_two::<G, F, B>(of, act, before, rest + round, states);
        let s1 = states.take(before.len() as int + 1);
        let t1 = states.skip(before.len() as int);
        crate::msm_device::words_out_grow::<G, F, B>(of, act, rest + round, t1);
        assert forall|j: int| 0 <= j < s1.last().words_out.len() implies #[trigger] s1.last().words_out[j]
            == out[j] by {
            assert(states.last().words_out[j] == s1.last().words_out[j]);
        }
        witness_log_runs::<G, F, B>(
            c,
            of,
            act,
            bases,
            held,
            poly,
            points,
            work_units,
            shape,
            p,
            reports,
            o,
            out,
            s1,
        );
        crate::msm_device::runs_in_two::<G, F, B>(of, act, rest, round, t1);
        let s2 = t1.take(rest.len() as int + 1);
        let t2 = t1.skip(rest.len() as int);
        crate::msm_device::words_out_grow::<G, F, B>(of, act, round, t2);
        assert forall|j: int| 0 <= j < s2.last().words_out.len() implies #[trigger] s2.last().words_out[j]
            == out[j] by {
            assert(states.last().words_out[j] == s2.last().words_out[j]);
        }
        witness_msm_ok::<G, F>(c, act, held, poly, points, work_units, shape, p, o as int);
        let at = reads_before(reports, o);
        assert(crate::fused_laws::reported(out, at, reports[o as int]));
        crate::fused_laws::fused_rest_gives_sum_of_multiples::<G, F, B>(
            c,
            of,
            act,
            held,
            crate::commit_laws::naturals(
                crate::commit_laws::witness_of(poly, points, o as int),
            ),
            p,
            s,
            reports[o as int],
            at,
            out,
            s2,
        );
        assert(s2.last().points[BASES] == s2[0].points[BASES]);
        witness_round_runs::<G, F, B>(
            c,
            of,
            act,
            held,
            poly,
            points,
            work_units,
            shape,
            p,
            i,
            reads_before(reports, i),
            t2,
        );
        let want = Seq::new(i, |k: int| witness_commitment::<G, F>(act, held, poly, points, k));
        assert(states.last().points_out =~= want);
    }
}

/// The witness polynomials fused with their commitments hand out one commitment for each point, in
/// order: the sum of the multiples of the first bases by the elements of the witness polynomial of
/// that point. After the MSM of round `i` the first `i + 1` commitments have been handed out.
///
/// Whoever runs the session hands over what the device reported in each round. The numbers that
/// kernels are told are 32 bit words, and one bit of the words that stand for bases is the sign, so
/// that the law needs numbers that fit.
#[verifier::spinoff_prover]
pub proof fn witnesses_hand_out_commitments<G: Group, F: PrimeField, B>(
    c: Set<G::Point>,
    of: spec_fn(B) -> G::Point,
    act: spec_fn(int, G::Point) -> G::Point,
    bases: Seq<B>,
    poly: Seq<F>,
    points: Seq<F>,
    work_units: nat,
    shape: WitnessShape,
    p: SortedMsmParams,
    reports: Seq<MsmReport>,
    i: nat,
    states: Seq<MsmDevice<G::Point>>,
)
    requires
        crate::group::abelian::<G>(c),
        crate::single_multiexp::integer_action::<G>(c, act),
        crate::group::all_in(c, bases.map_values(of)),
        2 <= poly.len() <= u32::MAX,
        points.len() <= u32::MAX,
        points.len() * (poly.len() - 1) <= u32::MAX,
        bases.len() >= poly.len() - 1,
        F::order() <= vstd::arithmetic::power2::pow2(BN254_SCALAR_BITS as nat),
        shape.wf(),
        shape.poly_len == poly.len(),
        shape.num_points == points.len(),
        p == crate::fused_commit::commit_params((poly.len() - 1) as nat, work_units),
        crate::sorted_laws::words_fit(p),
        i < points.len(),
        fresh(states[0]),
        all_reported(states.last().words_out, reports, i + 1),
        crate::msm_device::runs::<G, F, B>(
            of,
            act,
            crate::commit_laws::witness_log(poly, points, bases, shape, p, reports, i)
                + crate::commit_laws::msm_rest(
                p,
                crate::witness_commit::sizes_of(p),
                reports[i as int],
            ),
            states,
        ),
    ensures
        states.last().points_out.len() == i + 1,
        forall|k: int|
            0 <= k <= i ==> #[trigger] states.last().points_out[k] == seq![
                crate::sorted_sum::multiples::<G>(
                    act,
                    bases.map_values(of).take(poly.len() - 1),
                    crate::commit_laws::naturals(
                        crate::commit_laws::witness_of(poly, points, k),
                    ),
                ),
            ],
{
    let all = bases.map_values(of);
    let held = bases.take(shape.witness_len() as int).map_values(of);
    let s = crate::witness_commit::sizes_of(p);
    let out = states.last().words_out;
    let log = crate::commit_laws::witness_log(poly, points, bases, shape, p, reports, i);
    let rest = crate::commit_laws::msm_rest::<F, B>(p, s, reports[i as int]);
    assert forall|j: int| 0 <= j < held.len() implies c.contains(#[trigger] held[j]) by {
        assert(c.contains(all[j]));
    }
    assert(held =~= all.take(poly.len() - 1));
    witness_msm_ok::<G, F>(c, act, held, poly, points, work_units, shape, p, i as int);
    crate::msm_device::runs_in_two::<G, F, B>(of, act, log, rest, states);
    let s1 = states.take(log.len() as int + 1);
    let t1 = states.skip(log.len() as int);
    crate::msm_device::words_out_grow::<G, F, B>(of, act, rest, t1);
    assert forall|j: int| 0 <= j < s1.last().words_out.len() implies #[trigger] s1.last().words_out[j]
        == out[j] by {
        assert(states.last().words_out[j] == s1.last().words_out[j]);
    }
    witness_log_runs::<G, F, B>(
        c,
        of,
        act,
        bases,
        held,
        poly,
        points,
        work_units,
        shape,
        p,
        reports,
        i,
        out,
        s1,
    );
    let at = reads_before(reports, i);
    assert(crate::fused_laws::reported(out, at, reports[i as int]));
    crate::fused_laws::fused_rest_gives_sum_of_multiples::<G, F, B>(
        c,
        of,
        act,
        held,
        crate::commit_laws::naturals(crate::commit_laws::witness_of(poly, points, i as int)),
        p,
        s,
        reports[i as int],
        at,
        out,
        t1,
    );
    assert forall|k: int| 0 <= k <= i implies #[trigger] states.last().points_out[k]
        == witness_commitment::<G, F>(act, held, poly, points, k) by {}
}

spec fn fix_ok<G: Group, F: PrimeField>(
    c: Set<G::Point>,
    act: spec_fn(int, G::Point) -> G::Point,
    bases: Seq<G::Point>,
    poly: Seq<F>,
    challenges: Seq<F>,
    work_units: nat,
    s: MsmSizes,
) -> bool {
    &&& crate::group::abelian::<G>(c)
    &&& crate::single_multiexp::integer_action::<G>(c, act)
    &&& crate::group::all_in(c, bases)
    &&& bases.len() >= poly.len()
    &&& poly.len() / 2 <= u32::MAX
    &&& challenges.len() < 64
    &&& F::order() <= vstd::arithmetic::power2::pow2(BN254_SCALAR_BITS as nat)
    &&& s == MsmSizes::of(
        crate::fused_commit::round_params(poly.len(), work_units, challenges.len()),
    )
    &&& forall|k: nat|
        k < challenges.len() ==> crate::sorted_laws::words_fit(
            #[trigger] crate::commit_laws::fix_params(poly.len(), work_units, k),
        )
}

spec fn fix_commitment<G: Group, F: PrimeField>(
    act: spec_fn(int, G::Point) -> G::Point,
    bases: Seq<G::Point>,
    poly: Seq<F>,
    challenges: Seq<F>,
    i: nat,
) -> Seq<G::Point> {
    seq![
        crate::sorted_sum::multiples::<G>(
            act,
            bases.take(crate::poly_ops::halved(poly.len(), i + 1) as int),
            crate::commit_laws::naturals(
                crate::commit_laws::intermediate_of(poly, challenges, i),
            ),
        ),
    ]
}

proof fn fix_msm_ok<G: Group, F: PrimeField>(
    c: Set<G::Point>,
    act: spec_fn(int, G::Point) -> G::Point,
    bases: Seq<G::Point>,
    poly: Seq<F>,
    challenges: Seq<F>,
    work_units: nat,
    s: MsmSizes,
    i: nat,
)
    requires
        fix_ok::<G, F>(c, act, bases, poly, challenges, work_units, s),
        i < challenges.len(),
    ensures
        crate::commit_laws::fix_params(poly.len(), work_units, i).n_bases
            == crate::poly_ops::halved(poly.len(), i + 1),
        forall|j: int|
            0 <= j < crate::commit_laws::intermediate_of(poly, challenges, i).len()
                ==> #[trigger] crate::commit_laws::intermediate_of(poly, challenges, i)[j] >= 0,
        crate::msm_laws::msm_ok::<G>(
            c,
            act,
            bases,
            crate::commit_laws::naturals(
                crate::commit_laws::intermediate_of(poly, challenges, i),
            ),
            crate::commit_laws::fix_params(poly.len(), work_units, i),
        ),
        s.covers(crate::commit_laws::fix_params(poly.len(), work_units, i)),
{
    let p = crate::commit_laws::fix_params(poly.len(), work_units, i);
    assert(crate::sorted_laws::words_fit(p));
    crate::field_device::halved_at_most(poly.len(), i + 1);
    crate::field_device::fixed_in_turn_len(
        crate::reference::values(poly),
        crate::reference::values(challenges),
        i + 1,
        F::order() as int,
    );
    crate::commit_laws::intermediates_in_range(poly, challenges, i);
    let ps = crate::fused_commit::round_params(poly.len(), work_units, challenges.len());
    assert forall|k: int| 0 <= k < ps.len() implies (#[trigger] ps[k]).fits() by {
        assert(crate::sorted_laws::words_fit(
            crate::commit_laws::fix_params(poly.len(), work_units, k as nat),
        ));
    }
    crate::fused_msm::sizes_cover_all(ps);
    assert(ps[i as int] == p);
}

/// A round that fixes a variable, up to where the first stage of its MSM is done.
#[verifier::spinoff_prover]
proof fn fix_round_runs<G: Group, F: PrimeField, B>(
    c: Set<G::Point>,
    of: spec_fn(B) -> G::Point,
    act: spec_fn(int, G::Point) -> G::Point,
    bases: Seq<G::Point>,
    poly: Seq<F>,
    challenges: Seq<F>,
    work_units: nat,
    s: MsmSizes,
    i: nat,
    at: nat,
    states: Seq<MsmDevice<G::Point>>,
)
    requires
        fix_ok::<G, F>(c, act, bases, poly, challenges, work_units, s),
        i < challenges.len(),
        between_rounds(states[0], bases, s),
        states[0].words_out.len() == at,
        states.last().numbers.slots[SCALARS] == crate::commit_laws::intermediate_of(
            poly,
            challenges,
            i,
        ),
        crate::msm_device::runs::<G, F, B>(
            of,
            act,
            crate::fused_commit::fix_round_plan::<F, B>(
                i,
                crate::commit_laws::fix_params(poly.len(), work_units, i),
                s,
            ),
            states,
        ),
    ensures
        in_round(
            states.last(),
            bases,
            crate::commit_laws::naturals(
                crate::commit_laws::intermediate_of(poly, challenges, i),
            ),
            crate::commit_laws::fix_params(poly.len(), work_units, i),
            s,
            at,
        ),
        states.last().points_out == states[0].points_out,
{
    let p = crate::commit_laws::fix_params(poly.len(), work_units, i);
    let plan = crate::fused_commit::fix_round_plan::<F, B>(i, p, s);
    let pre = plan.take(5);
    let start = crate::fused_msm::msm_start_plan::<F, B>(SCALARS, p, s);
    assert(plan =~= pre + start);
    crate::msm_device::runs_in_two::<G, F, B>(of, act, pre, start, states);
    fix_msm_ok::<G, F>(c, act, bases, poly, challenges, work_units, s, i);
    let first = states.take(6);
    assert(pre[0] is Alloc && pre[1] is Launch && pre[2] is Read && pre[3] is Alloc && pre[4]
        is Launch);
    let d = first[5];
    assert(crate::fused_commit::poly_slot(i + 1) >= 20);
    assert(d.points[BASES] == states[0].points[BASES]);
    assert(crate::fused_laws::has_room(d, s));
    assert(d.standard.contains(SCALARS));
    round_starts::<G, F, B>(
        c,
        of,
        act,
        bases,
        crate::commit_laws::intermediate_of(poly, challenges, i),
        p,
        s,
        at,
        states.skip(5),
    );
}

/// What a round leaves behind.
#[verifier::spinoff_prover]
proof fn fix_end_runs<G: Group, F: PrimeField, B>(
    of: spec_fn(B) -> G::Point,
    act: spec_fn(int, G::Point) -> G::Point,
    bases: Seq<G::Point>,
    s: MsmSizes,
    i: nat,
    states: Seq<MsmDevice<G::Point>>,
)
    requires
        i < 64,
        between_rounds(states[0], bases, s),
        crate::msm_device::runs::<G, F, B>(
            of,
            act,
            crate::fused_commit::fix_round_end::<F, B>(i),
            states,
        ),
    ensures
        between_rounds(states.last(), bases, s),
        states.last().words_out == states[0].words_out,
        states.last().points_out == states[0].points_out,
{
    let log = crate::fused_commit::fix_round_end::<F, B>(i);
    assert(log[0] is Free && log[1] is Free);
    assert(crate::fused_commit::poly_slot(i) >= 20);
    assert(between_rounds(states[1], bases, s));
}

/// The session that fixes variables and commits up to the first stage of round `i`.
#[verifier::spinoff_prover]
proof fn fix_log_runs<G: Group, F: PrimeField, B>(
    c: Set<G::Point>,
    of: spec_fn(B) -> G::Point,
    act: spec_fn(int, G::Point) -> G::Point,
    bases: Seq<B>,
    held: Seq<G::Point>,
    poly: Seq<F>,
    challenges: Seq<F>,
    work_units: nat,
    s: MsmSizes,
    reports: Seq<MsmReport>,
    i: nat,
    out: Seq<Seq<u32>>,
    states: Seq<MsmDevice<G::Point>>,
)
    requires
        held == bases.map_values(of),
        fix_ok::<G, F>(c, act, held, poly, challenges, work_units, s),
        i < challenges.len(),
        fresh(states[0]),
        heads(states.last(), out),
        all_reported(out, reports, i),
        crate::msm_device::runs::<G, F, B>(
            of,
            act,
            crate::commit_laws::fix_log(poly, challenges, bases, work_units, s, reports, i),
            states,
        ),
    ensures
        in_round(
            states.last(),
            held,
            crate::commit_laws::naturals(
                crate::commit_laws::intermediate_of(poly, challenges, i),
            ),
            crate::commit_laws::fix_params(poly.len(), work_units, i),
            s,
            reads_before(reports, i),
        ),
        states.last().points_out == Seq::new(
            i,
            |k: int| fix_commitment::<G, F>(act, held, poly, challenges, k as nat),
        ),
    decreases i,
{
    let p = crate::commit_laws::fix_params(poly.len(), work_units, i);
    let log = crate::commit_laws::fix_log(poly, challenges, bases, work_units, s, reports, i);
    let round = crate::fused_commit::fix_round_plan::<F, B>(i, p, s);
    crate::msm_device::numbers_run::<G, F, B>(of, act, log, states);
    crate::commit_laws::fix_scalars(poly, challenges, bases, work_units, s, reports, i);
    if i == 0 {
        let head = log.take(3);
        let buffers = crate::fused_msm::buffers_plan::<F, B>(s);
        assert(log =~= head + (buffers + round));
        crate::msm_device::runs_in_two::<G, F, B>(of, act, head, buffers + round, states);
        let s1 = states.take(4);
        let t1 = states.skip(3);
        assert(head[0] is Upload && head[1] is Upload && head[2] is Upload);
        assert(s1[3].points[BASES] == held);
        crate::msm_device::runs_in_two::<G, F, B>(of, act, buffers, round, t1);
        let s2 = t1.take(buffers.len() as int + 1);
        let t2 = t1.skip(buffers.len() as int);
        crate::fused_laws::buffers_make_room::<G, F, B>(of, act, s, s2);
        assert(s2.last().points[BASES] == s2[0].points[BASES]);
        fix_round_runs::<G, F, B>(
            c,
            of,
            act,
            held,
            poly,
            challenges,
            work_units,
            s,
            0,
            0,
            t2,
        );
        assert(states.last().points_out =~= Seq::new(
            0,
            |k: int| fix_commitment::<G, F>(act, held, poly, challenges, k as nat),
        ));
    } else {
        let o = (i - 1) as nat;
        let q = crate::commit_laws::fix_params(poly.len(), work_units, o);
        let before = crate::commit_laws::fix_log(
            poly,
            challenges,
            bases,
            work_units,
            s,
            reports,
            o,
        );
        let rest = crate::commit_laws::msm_rest::<F, B>(q, s, reports[i - 1]);
        let end = crate::fused_commit::fix_round_end::<F, B>(o);
        assert(log =~= before + (rest + (end + round)));
        crate::msm_device::runs_in_two::<G, F, B>(of, act, before, rest + (end + round), states);
        let s1 = states.take(before.len() as int + 1);
        let t1 = states.skip(before.len() as int);
        crate::msm_device::words_out_grow::<G, F, B>(of, act, rest + (end + round), t1);
        assert forall|j: int| 0 <= j < s1.last().words_out.len() implies #[trigger] s1.last().words_out[j]
            == out[j] by {
            assert(states.last().words_out[j] == s1.last().words_out[j]);
        }
        fix_log_runs::<G, F, B>(
            c,
            of,
            act,
            bases,
            held,
            poly,
            challenges,
            work_units,
            s,
            reports,
            o,
            out,
            s1,
        );
        crate::msm_device::runs_in_two::<G, F, B>(of, act, rest, end + round, t1);
        let s2 = t1.take(rest.len() as int + 1);
        let t2 = t1.skip(rest.len() as int);
        crate::msm_device::words_out_grow::<G, F, B>(of, act, end + round, t2);
        assert forall|j: int| 0 <= j < s2.last().words_out.len() implies #[trigger] s2.last().words_out[j]
            == out[j] by {
            assert(states.last().words_out[j] == s2.last().words_out[j]);
        }
        fix_msm_ok::<G, F>(c, act, held, poly, challenges, work_units, s, o);
        let at = reads_before(reports, o);
        assert(crate::fused_laws::reported(out, at, reports[o as int]));
        crate::fused_laws::fused_rest_gives_sum_of_multiples::<G, F, B>(
            c,
            of,
            act,
            held,
            crate::commit_laws::naturals(
                crate::commit_laws::intermediate_of(poly, challenges, o),
            ),
            q,
            s,
            reports[o as int],
            at,
            out,
            s2,
        );
        assert(s2.last().points[BASES] == s2[0].points[BASES]);
        crate::msm_device::runs_in_two::<G, F, B>(of, act, end, round, t2);
        let s3 = t2.take(end.len() as int + 1);
        let t3 = t2.skip(end.len() as int);
        fix_end_runs::<G, F, B>(of, act, held, s, o, s3);
        fix_round_runs::<G, F, B>(
            c,
            of,
            act,
            held,
            poly,
            challenges,
            work_units,
            s,
            i,
            reads_before(reports, i),
            t3,
        );
        let want = Seq::new(
            i,
            |k: int| fix_commitment::<G, F>(act, held, poly, challenges, k as nat),
        );
        assert(states.last().points_out =~= want);
    }
}

/// Fixing variables fused with commitments hands out one commitment for each variable, in order: the
/// sum of the multiples of the first bases by the elements of the intermediate polynomial. After the
/// MSM of round `i` the first `i + 1` commitments have been handed out.
///
/// Whoever runs the session hands over what the device reported in each round. The numbers that
/// kernels are told are 32 bit words, and one bit of the words that stand for bases is the sign, so
/// that the law needs numbers that fit.
#[verifier::spinoff_prover]
pub proof fn fixing_hands_out_commitments<G: Group, F: PrimeField, B>(
    c: Set<G::Point>,
    of: spec_fn(B) -> G::Point,
    act: spec_fn(int, G::Point) -> G::Point,
    bases: Seq<B>,
    poly: Seq<F>,
    challenges: Seq<F>,
    work_units: nat,
    s: MsmSizes,
    reports: Seq<MsmReport>,
    i: nat,
    states: Seq<MsmDevice<G::Point>>,
)
    requires
        crate::group::abelian::<G>(c),
        crate::single_multiexp::integer_action::<G>(c, act),
        crate::group::all_in(c, bases.map_values(of)),
        bases.len() >= poly.len(),
        poly.len() <= usize::MAX,
        poly.len() / 2 <= u32::MAX,
        challenges.len() <= crate::arith::log2(poly.len()),
        F::order() <= vstd::arithmetic::power2::pow2(BN254_SCALAR_BITS as nat),
        s == MsmSizes::of(
            crate::fused_commit::round_params(poly.len(), work_units, challenges.len()),
        ),
        forall|k: nat|
            k < challenges.len() ==> crate::sorted_laws::words_fit(
                #[trigger] crate::commit_laws::fix_params(poly.len(), work_units, k),
            ),
        i < challenges.len(),
        fresh(states[0]),
        all_reported(states.last().words_out, reports, i + 1),
        crate::msm_device::runs::<G, F, B>(
            of,
            act,
            crate::commit_laws::fix_log(poly, challenges, bases, work_units, s, reports, i)
                + crate::commit_laws::msm_rest(
                crate::commit_laws::fix_params(poly.len(), work_units, i),
                s,
                reports[i as int],
            ),
            states,
        ),
    ensures
        states.last().points_out.len() == i + 1,
        forall|k: int|
            0 <= k <= i ==> #[trigger] states.last().points_out[k] == seq![
                crate::sorted_sum::multiples::<G>(
                    act,
                    bases.map_values(of).take(
                        crate::poly_ops::halved(poly.len(), (k + 1) as nat) as int,
                    ),
                    crate::commit_laws::naturals(
                        crate::commit_laws::intermediate_of(poly, challenges, k as nat),
                    ),
                ),
            ],
{
    let held = bases.map_values(of);
    let p = crate::commit_laws::fix_params(poly.len(), work_units, i);
    let out = states.last().words_out;
    let log = crate::commit_laws::fix_log(poly, challenges, bases, work_units, s, reports, i);
    let rest = crate::commit_laws::msm_rest::<F, B>(p, s, reports[i as int]);
    crate::fused_commit::log_is_small(poly.len() as usize);
    fix_msm_ok::<G, F>(c, act, held, poly, challenges, work_units, s, i);
    crate::msm_device::runs_in_two::<G, F, B>(of, act, log, rest, states);
    let s1 = states.take(log.len() as int + 1);
    let t1 = states.skip(log.len() as int);
    crate::msm_device::words_out_grow::<G, F, B>(of, act, rest, t1);
    assert forall|j: int| 0 <= j < s1.last().words_out.len() implies #[trigger] s1.last().words_out[j]
        == out[j] by {
        assert(states.last().words_out[j] == s1.last().words_out[j]);
    }
    fix_log_runs::<G, F, B>(
        c,
        of,
        act,
        bases,
        held,
        poly,
        challenges,
        work_units,
        s,
        reports,
        i,
        out,
        s1,
    );
    let at = reads_before(reports, i);
    assert(crate::fused_laws::reported(out, at, reports[i as int]));
    crate::fused_laws::fused_rest_gives_sum_of_multiples::<G, F, B>(
        c,
        of,
        act,
        held,
        crate::commit_laws::naturals(crate::commit_laws::intermediate_of(poly, challenges, i)),
        p,
        s,
        reports[i as int],
        at,
        out,
        t1,
    );
    assert forall|k: int| 0 <= k <= i implies #[trigger] states.last().points_out[k]
        == fix_commitment::<G, F>(act, held, poly, challenges, k as nat) by {}
}

} // verus!
