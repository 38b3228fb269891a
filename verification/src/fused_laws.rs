//! What the MSMs of the fused operations compute.
//!
//! The MSMs share their buffers, and find their scalars on the device.

use vstd::prelude::*;

use crate::commit_laws::MsmReport;
use crate::field::PrimeField;
use crate::fused_msm::{MsmSizes, FIELD_WORK_SIZE};
use crate::group::Group;
use crate::msm_device::MsmDevice;
use crate::multiexp::{SortedMsmParams, LOCAL_WORK_SIZE};
use crate::session::Cmd;
use crate::sorted_msm::{
    BASES, BUCKET_RESULTS, CHUNK_SBP, CHUNK_SUM, COUNTS, DIGITS, FINAL_RESULT, FIRST_FREE, KEYS,
    NONEMPTY_IDS, NUM_NONEMPTY, OFFSETS, SCATTER_OFFSETS, SORTED, VALUES, WINDOW_RESULTS,
};

verus! {

/// Whether a device has the buffers that the MSMs share.
pub open spec fn has_room<P>(d: MsmDevice<P>, s: MsmSizes) -> bool {
    let chunks = crate::arith::max_of(s.chunks as int, 1);
    &&& d.digits[DIGITS].len() == s.digits
    &&& d.words[KEYS].len() == s.pairs
    &&& d.words[VALUES].len() == s.pairs
    &&& d.words[SORTED].len() == s.pairs
    &&& d.words[COUNTS].len() == s.buckets
    &&& d.words[OFFSETS].len() == s.buckets
    &&& d.words[NONEMPTY_IDS].len() == s.buckets
    &&& d.words[SCATTER_OFFSETS].len() == s.buckets
    &&& d.words[NUM_NONEMPTY].len() == 1
    &&& d.points[BUCKET_RESULTS].len() == s.buckets
    &&& d.points[WINDOW_RESULTS].len() == s.windows
    &&& d.points[FINAL_RESULT].len() == 1
    &&& d.points[CHUNK_SBP].len() == chunks
    &&& d.points[CHUNK_SUM].len() == chunks
}

/// Whether two devices hold the same points in the slots that MSMs do not use.
pub open spec fn points_kept<P>(d: MsmDevice<P>, e: MsmDevice<P>) -> bool {
    forall|o: usize| o < DIGITS || o >= FIRST_FREE ==> #[trigger] e.points[o] == d.points[o]
}

/// The commands of an MSM leave the scalars in other slots alone.
pub proof fn msm_keeps_numbers<G: Group, F: PrimeField, B>(
    of: spec_fn(B) -> G::Point,
    act: spec_fn(int, G::Point) -> G::Point,
    log: Seq<Cmd<F, B>>,
    states: Seq<MsmDevice<G::Point>>,
    o: usize,
)
    requires
        crate::msm_device::runs::<G, F, B>(of, act, log, states),
        crate::field_device::all_msm(log),
        !crate::field_device::in_msm(o),
    ensures
        states.last().numbers.slots[o] == states[0].numbers.slots[o],
        states.last().standard.contains(o) == states[0].standard.contains(o),
    decreases log.len(),
{
    crate::msm_device::numbers_run::<G, F, B>(of, act, log, states);
    crate::field_device::msm_leaves_fields(states[0].numbers, log, o);
    if log.len() > 0 {
        let n = log.len() as int;
        let before = log.drop_last();
        assert(log =~= before + seq![log.last()]);
        crate::msm_device::runs_in_two::<G, F, B>(of, act, before, seq![log.last()], states);
        assert forall|i: int| 0 <= i < before.len() implies crate::field_device::is_msm(
            #[trigger] before[i],
        ) by {
            assert(before[i] == log[i]);
        }
        msm_keeps_numbers::<G, F, B>(of, act, before, states.take(n), o);
        assert(crate::field_device::is_msm(log[n - 1]));
    }
}

/// The first half of an MSM that is not looked at on the way.
#[verifier::spinoff_prover]
proof fn unwatched_sorts<G: Group, F: PrimeField, B>(
    c: Set<G::Point>,
    of: spec_fn(B) -> G::Point,
    act: spec_fn(int, G::Point) -> G::Point,
    slot: usize,
    bases: Seq<G::Point>,
    scalars: Seq<nat>,
    p: SortedMsmParams,
    s: MsmSizes,
    states: Seq<MsmDevice<G::Point>>,
)
    requires
        crate::msm_laws::msm_ok::<G>(c, act, bases, scalars, p),
        s.covers(p),
        has_room(states[0], s),
        states[0].points[BASES] == bases,
        crate::sorted_laws::holds_scalars(states[0], slot, scalars, p),
        crate::msm_device::runs::<G, F, B>(
            of,
            act,
            crate::fused_open::msm_plan::<F, B>(slot, p).take(7),
            states,
        ),
    ensures
        has_room(states.last(), s),
        states.last().points == states[0].points,
        states.last().numbers == states[0].numbers,
        states.last().standard == states[0].standard,
        states.last().words_out == states[0].words_out,
        states.last().points_out == states[0].points_out,
        crate::sorted_laws::sorted_done(
            states.last().words[SORTED],
            states.last().words[OFFSETS],
            states.last().words[COUNTS],
            scalars,
            p,
        ),
{
    let log = crate::fused_open::msm_plan::<F, B>(slot, p).take(7);
    let tb = p.total_buckets();
    p.bounds();
    crate::field_device::groups_suffice(tb, LOCAL_WORK_SIZE);
    assert(log[0] is Launch && log[1] is Launch && log[2] is Launch && log[3] is Launch && log[4]
        is Launch && log[5] is Launch && log[6] is Launch);
    crate::sorted_laws::step_preprocess::<G, F, B>(
        of,
        act,
        states[0],
        states[1],
        slot,
        p,
        FIELD_WORK_SIZE,
        scalars,
    );
    crate::sorted_laws::step_decompose::<G, F, B>(of, act, states[1], states[2], p, scalars);
    let d3 = states[3];
    let args = log[2]->args;
    assert(crate::field_device::word_arg(args, 1) == tb);
    assert(crate::msm_device::wrote_words(states[2], d3, COUNTS));
    assert forall|b: int| 0 <= b < tb implies #[trigger] d3.words[COUNTS][b] == 0 by {}
    assert(d3.words[KEYS] == states[2].words[KEYS]);
    crate::sorted_laws::step_count::<G, F, B>(of, act, d3, states[4], p);
    assert(states[4].words[KEYS] == d3.words[KEYS]);
    crate::sorted_laws::step_prefix::<G, F, B>(of, act, states[4], states[5], p);
    let d5 = states[5];
    let d6 = states[6];
    let more = log[5]->args;
    assert(crate::field_device::word_arg(more, 2) == tb);
    assert(crate::msm_device::wrote_words(d5, d6, SCATTER_OFFSETS));
    assert forall|b: int| 0 <= b < tb implies #[trigger] d6.words[SCATTER_OFFSETS][b]
        == d6.words[OFFSETS][b] by {}
    assert(d6.words[KEYS] == states[2].words[KEYS]);
    assert(d6.words[VALUES] == states[2].words[VALUES]);
    assert(d6.words[COUNTS] == states[4].words[COUNTS]);
    assert(d6.words[OFFSETS] == d5.words[OFFSETS]);
    crate::sorted_laws::step_scatter::<G, F, B>(of, act, d6, states[7], p, scalars);
}

/// An MSM that is not looked at on the way leaves the sum of the multiples of the bases by the
/// scalars in the place of the result, and leaves the slots of the others alone.
#[verifier::spinoff_prover]
pub proof fn unwatched_msm_gives_sum_of_multiples<G: Group, F: PrimeField, B>(
    c: Set<G::Point>,
    of: spec_fn(B) -> G::Point,
    act: spec_fn(int, G::Point) -> G::Point,
    slot: usize,
    bases: Seq<G::Point>,
    scalars: Seq<nat>,
    p: SortedMsmParams,
    s: MsmSizes,
    states: Seq<MsmDevice<G::Point>>,
)
    requires
        crate::msm_laws::msm_ok::<G>(c, act, bases, scalars, p),
        s.covers(p),
        has_room(states[0], s),
        states[0].points[BASES] == bases,
        crate::sorted_laws::holds_scalars(states[0], slot, scalars, p),
        crate::msm_device::runs::<G, F, B>(
            of,
            act,
            crate::fused_open::msm_plan::<F, B>(slot, p),
            states,
        ),
    ensures
        states.last().points[FINAL_RESULT][0] == crate::sorted_sum::multiples::<G>(
            act,
            bases.take(p.n_bases as int),
            scalars,
        ),
        has_room(states.last(), s),
        points_kept(states[0], states.last()),
        states.last().numbers == states[0].numbers,
        states.last().standard == states[0].standard,
        states.last().words_out == states[0].words_out,
        states.last().points_out == states[0].points_out,
{
    let whole = crate::fused_open::msm_plan::<F, B>(slot, p);
    let head = whole.take(7);
    let log = whole.skip(7);
    assert(whole =~= head + log);
    crate::msm_device::runs_in_two::<G, F, B>(of, act, head, log, states);
    let first = states.take(8);
    let rest = states.skip(7);
    unwatched_sorts::<G, F, B>(c, of, act, slot, bases, scalars, p, s, first);
    let d = rest[0];
    let tb = p.total_buckets();
    p.bounds();
    crate::field_device::groups_suffice(tb, LOCAL_WORK_SIZE);
    assert(log.len() == 4);
    assert(log[0] is Launch && log[1] is Launch && log[2] is Launch && log[3] is Launch);
    let d1 = rest[1];
    let args = log[0]->args;
    assert(crate::field_device::word_arg(args, 5) == tb);
    assert(crate::msm_device::wrote_points(d, d1, BUCKET_RESULTS));
    let buckets = d1.points[BUCKET_RESULTS];
    let sorted = d.words[SORTED];
    let offsets = d.words[OFFSETS];
    let counts = d.words[COUNTS];
    assert(crate::sorted_laws::buckets_done::<G>(act, bases, buckets, sorted, offsets, counts, p));
    crate::sorted_laws::step_reduce::<G, F, B>(of, act, d1, rest[2], p);
    crate::sorted_laws::step_combine::<G, F, B>(of, act, rest[2], rest[3], p);
    crate::sorted_laws::step_windows::<G, F, B>(of, act, rest[3], rest[4], p);
    crate::msm_laws::first_bases_suffice::<G>(
        act,
        bases,
        buckets,
        sorted,
        offsets,
        counts,
        scalars,
        p,
    );
    crate::sorted_laws::windows_make_sum::<G>(
        c,
        act,
        bases.take(p.n_bases as int),
        scalars,
        p,
        sorted,
        offsets,
        counts,
        buckets,
        rest[2].points[CHUNK_SBP],
        rest[2].points[CHUNK_SUM],
        rest[3].points[WINDOW_RESULTS],
    );
    assert(rest[4] == states.last());
}

/// The first stage of an MSM counts the pairs, and reports the number of buckets that are not empty
/// and the offsets.
#[verifier::spinoff_prover]
pub proof fn fused_start_counts<G: Group, F: PrimeField, B>(
    c: Set<G::Point>,
    of: spec_fn(B) -> G::Point,
    act: spec_fn(int, G::Point) -> G::Point,
    slot: usize,
    bases: Seq<G::Point>,
    scalars: Seq<nat>,
    p: SortedMsmParams,
    s: MsmSizes,
    states: Seq<MsmDevice<G::Point>>,
)
    requires
        crate::msm_laws::msm_ok::<G>(c, act, bases, scalars, p),
        s.covers(p),
        has_room(states[0], s),
        states[0].points[BASES] == bases,
        crate::sorted_laws::holds_scalars(states[0], slot, scalars, p),
        crate::msm_device::runs::<G, F, B>(
            of,
            act,
            crate::fused_msm::msm_start_plan::<F, B>(slot, p, s),
            states,
        ),
    ensures
        crate::msm_laws::counted_on(states.last(), bases, scalars, p),
        has_room(states.last(), s),
        states.last().points == states[0].points,
        states.last().words_out == states[0].words_out.push(
            states.last().words[NUM_NONEMPTY],
        ).push(states.last().words[OFFSETS]),
        states.last().points_out == states[0].points_out,
{
    let log = crate::fused_msm::msm_start_plan::<F, B>(slot, p, s);
    let tb = p.total_buckets();
    p.bounds();
    assert(log[0] is Launch && log[1] is Launch && log[2] is Write && log[3] is Launch && log[4]
        is Launch && log[5] is Read && log[6] is Read);
    crate::sorted_laws::step_preprocess::<G, F, B>(
        of,
        act,
        states[0],
        states[1],
        slot,
        p,
        FIELD_WORK_SIZE,
        scalars,
    );
    crate::sorted_laws::step_decompose::<G, F, B>(of, act, states[1], states[2], p, scalars);
    let d3 = states[3];
    assert forall|b: int| 0 <= b < tb implies #[trigger] d3.words[COUNTS][b] == 0 by {}
    assert(d3.words[KEYS] == states[2].words[KEYS]);
    crate::sorted_laws::step_count::<G, F, B>(of, act, d3, states[4], p);
    assert(states[4].words[KEYS] == d3.words[KEYS]);
    crate::sorted_laws::step_prefix::<G, F, B>(of, act, states[4], states[5], p);
    let e = states[5];
    assert(e.words[KEYS] == d3.words[KEYS]);
    assert(e.words[VALUES] == states[2].words[VALUES]);
    assert(e.words[COUNTS] == states[4].words[COUNTS]);
    assert(e.words[NUM_NONEMPTY].take(1) =~= e.words[NUM_NONEMPTY]);
    assert(e.words[OFFSETS].take(s.buckets as int) =~= e.words[OFFSETS]);
    assert(states[7].words == e.words && states[7].points == e.points);
}

/// The steps from the sums of the buckets to the result hand out the sum of the multiples.
#[verifier::spinoff_prover]
proof fn fused_tail_gives_sum<G: Group, F: PrimeField, B>(
    c: Set<G::Point>,
    of: spec_fn(B) -> G::Point,
    act: spec_fn(int, G::Point) -> G::Point,
    bases: Seq<G::Point>,
    scalars: Seq<nat>,
    p: SortedMsmParams,
    s: MsmSizes,
    states: Seq<MsmDevice<G::Point>>,
)
    requires
        crate::msm_laws::msm_ok::<G>(c, act, bases, scalars, p),
        s.covers(p),
        has_room(states[0], s),
        crate::msm_laws::summed_on::<G>(act, states[0], bases, scalars, p),
        crate::msm_device::runs::<G, F, B>(
            of,
            act,
            crate::fused_msm::msm_tail_plan::<F, B>(p),
            states,
        ),
    ensures
        has_room(states.last(), s),
        points_kept(states[0], states.last()),
        states.last().words_out == states[0].words_out,
        states.last().points_out == states[0].points_out.push(
            seq![
                crate::sorted_sum::multiples::<G>(act, bases.take(p.n_bases as int), scalars),
            ],
        ),
{
    let log = crate::fused_msm::msm_tail_plan::<F, B>(p);
    let d = states[0];
    p.bounds();
    assert(log[0] is Launch && log[1] is Launch && log[2] is Write && log[3] is Launch && log[4]
        is Read);
    let buckets = d.points[BUCKET_RESULTS];
    crate::sorted_laws::step_reduce::<G, F, B>(of, act, d, states[1], p);
    crate::sorted_laws::step_combine::<G, F, B>(of, act, states[1], states[2], p);
    let windows = states[2].points[WINDOW_RESULTS];
    assert(states[3].points[WINDOW_RESULTS] == windows);
    assert(states[3].points[FINAL_RESULT].len() == 1);
    crate::sorted_laws::step_windows::<G, F, B>(of, act, states[3], states[4], p);
    crate::msm_laws::first_bases_suffice::<G>(
        act,
        bases,
        buckets,
        d.words[SORTED],
        d.words[OFFSETS],
        d.words[COUNTS],
        scalars,
        p,
    );
    crate::sorted_laws::windows_make_sum::<G>(
        c,
        act,
        bases.take(p.n_bases as int),
        scalars,
        p,
        d.words[SORTED],
        d.words[OFFSETS],
        d.words[COUNTS],
        buckets,
        states[1].points[CHUNK_SBP],
        states[1].points[CHUNK_SUM],
        windows,
    );
    let sum = crate::sorted_sum::multiples::<G>(act, bases.take(p.n_bases as int), scalars);
    let result = states[4].points[FINAL_RESULT];
    assert(result.take(1) =~= seq![sum]);
}

/// The stage after the offsets are known, up to where the buckets are neutral.
#[verifier::spinoff_prover]
proof fn fused_offsets_sort<G: Group, F: PrimeField, B>(
    c: Set<G::Point>,
    of: spec_fn(B) -> G::Point,
    act: spec_fn(int, G::Point) -> G::Point,
    bases: Seq<G::Point>,
    scalars: Seq<nat>,
    p: SortedMsmParams,
    s: MsmSizes,
    r: MsmReport,
    states: Seq<MsmDevice<G::Point>>,
)
    requires
        crate::msm_laws::msm_ok::<G>(c, act, bases, scalars, p),
        s.covers(p),
        has_room(states[0], s),
        crate::msm_laws::counted_on(states[0], bases, scalars, p),
        r.offsets == states[0].words[OFFSETS],
        crate::msm_device::runs::<G, F, B>(
            of,
            act,
            crate::fused_msm::msm_offsets_plan::<F, B>(p, s, r.num_nonempty, r.offsets).take(3),
            states,
        ),
    ensures
        has_room(states.last(), s),
        points_kept(states[0], states.last()),
        crate::msm_laws::sorted_on(states.last(), bases, scalars, p),
        crate::msm_laws::neutral_on::<G>(states.last(), p),
        states.last().words[COUNTS] == states[0].words[COUNTS],
        states.last().words[NONEMPTY_IDS] == states[0].words[NONEMPTY_IDS],
        states.last().words[NUM_NONEMPTY] == states[0].words[NUM_NONEMPTY],
        states.last().words_out == states[0].words_out,
        states.last().points_out == states[0].points_out,
{
    let log = crate::fused_msm::msm_offsets_plan::<F, B>(p, s, r.num_nonempty, r.offsets).take(3);
    let d = states[0];
    let d1 = states[1];
    p.bounds();
    assert(log[0] is Write && log[1] is Launch && log[2] is Write);
    assert forall|b: int| 0 <= b < p.total_buckets() implies #[trigger] d1.words[SCATTER_OFFSETS][b]
        == d1.words[OFFSETS][b] by {}
    crate::sorted_laws::step_scatter::<G, F, B>(of, act, d1, states[2], p, scalars);
    let e = states[3];
    assert(e.words[SORTED] == states[2].words[SORTED]);
    assert(e.words[OFFSETS] == d.words[OFFSETS]);
    assert(e.words[COUNTS] == d.words[COUNTS]);
    assert(e.words[KEYS] == d.words[KEYS]);
    assert(e.words[VALUES] == d.words[VALUES]);
    assert(e.words[NONEMPTY_IDS] == d.words[NONEMPTY_IDS]);
    assert(e.words[NUM_NONEMPTY] == d.words[NUM_NONEMPTY]);
    assert(e.points[BASES] == bases);
}

/// Whether a report is what the device hands to the host in a round: first the number of buckets
/// that are not empty and the offsets, and the counts and the list of these buckets if there are any.
pub open spec fn reported(out: Seq<Seq<u32>>, at: nat, r: MsmReport) -> bool {
    &&& out[at as int][0] == r.num_nonempty
    &&& out[at as int + 1] == r.offsets
    &&& r.num_nonempty > 0 ==> out[at as int + 2] == r.counts && out[at as int + 3] == r.ids
}

/// How many times words are handed to the host in a round.
pub open spec fn reads_of(r: MsmReport) -> nat {
    if r.num_nonempty > 0 {
        4
    } else {
        2
    }
}

/// The stages of an MSM after the first one hand out one point, the sum of the multiples of the bases
/// by the scalars, provided that they are planned from what the device reported. `out` starts with
/// all that has been handed to the host.
#[verifier::spinoff_prover]
pub proof fn fused_rest_gives_sum_of_multiples<G: Group, F: PrimeField, B>(
    c: Set<G::Point>,
    of: spec_fn(B) -> G::Point,
    act: spec_fn(int, G::Point) -> G::Point,
    bases: Seq<G::Point>,
    scalars: Seq<nat>,
    p: SortedMsmParams,
    s: MsmSizes,
    r: MsmReport,
    at: nat,
    out: Seq<Seq<u32>>,
    states: Seq<MsmDevice<G::Point>>,
)
    requires
        crate::msm_laws::msm_ok::<G>(c, act, bases, scalars, p),
        s.covers(p),
        has_room(states[0], s),
        crate::msm_laws::counted_on(states[0], bases, scalars, p),
        states[0].words_out.len() == at + 2,
        states[0].words_out[at as int] == states[0].words[NUM_NONEMPTY],
        states[0].words_out[at as int + 1] == states[0].words[OFFSETS],
        forall|j: int|
            0 <= j < states.last().words_out.len() ==> #[trigger] states.last().words_out[j] == out[j],
        reported(out, at, r),
        crate::msm_device::runs::<G, F, B>(
            of,
            act,
            crate::commit_laws::msm_rest::<F, B>(p, s, r),
            states,
        ),
    ensures
        has_room(states.last(), s),
        points_kept(states[0], states.last()),
        states.last().words_out.len() == at + reads_of(r),
        states.last().points_out == states[0].points_out.push(
            seq![
                crate::sorted_sum::multiples::<G>(act, bases.take(p.n_bases as int), scalars),
            ],
        ),
{
    let tb = p.total_buckets();
    let num = r.num_nonempty;
    let whole = crate::commit_laws::msm_rest::<F, B>(p, s, r);
    let middle = crate::fused_msm::msm_offsets_plan::<F, B>(p, s, num, r.offsets);
    let head = middle.take(3);
    let rest = whole.skip(3);
    let tail = crate::fused_msm::msm_tail_plan::<F, B>(p);
    assert(whole =~= head + rest);
    let d = states[0];
    crate::msm_device::words_out_grow::<G, F, B>(of, act, whole, states);
    assert(states.last().words_out[at as int] == d.words_out[at as int]);
    assert(states.last().words_out[at as int + 1] == d.words_out[at as int + 1]);
    assert(num == d.words[NUM_NONEMPTY][0]);
    crate::msm_device::runs_in_two::<G, F, B>(of, act, head, rest, states);
    let s1 = states.take(4);
    let t1 = states.skip(3);
    fused_offsets_sort::<G, F, B>(c, of, act, bases, scalars, p, s, r, s1);
    let e = s1.last();
    assert(t1[0] == e);
    if num > 0 {
        let reads = middle.skip(3);
        let counts = r.counts.take(tb as int);
        let ids = r.ids.take(tb as int);
        let sums = crate::sorted_msm::accumulate::<F, B>(counts, ids, num);
        assert(rest =~= reads + (sums + tail));
        assert(reads.len() == 2);
        crate::msm_device::runs_in_two::<G, F, B>(of, act, reads, sums + tail, t1);
        let s2 = t1.take(3);
        let t2 = t1.skip(2);
        assert(reads[0] is Read && reads[1] is Read);
        let f = s2.last();
        assert(e.words[COUNTS].take(s.buckets as int) =~= e.words[COUNTS]);
        assert(e.words[NONEMPTY_IDS].take(s.buckets as int) =~= e.words[NONEMPTY_IDS]);
        assert(f.words == e.words && f.points == e.points && f.digits == e.digits);
        assert(f.words_out == e.words_out.push(e.words[COUNTS]).push(e.words[NONEMPTY_IDS]));
        crate::msm_device::words_out_grow::<G, F, B>(of, act, sums + tail, t2);
        assert(f.words_out[at as int + 2] == states.last().words_out[at as int + 2]);
        assert(f.words_out[at as int + 3] == states.last().words_out[at as int + 3]);
        crate::msm_laws::listed_fit::<G>(c, act, f, bases, scalars, p, counts, ids, num);
        crate::msm_device::runs_in_two::<G, F, B>(of, act, sums, tail, t2);
        let s3 = t2.take(sums.len() as int + 1);
        let t3 = t2.skip(sums.len() as int);
        crate::msm_laws::accumulate_adds_up::<G, F, B>(c, of, act, counts, ids, num, s3);
        let g = s3.last();
        crate::msm_laws::listed_make_all::<G>(act, f, g, bases, scalars, p, ids, num);
        room_after_buckets(f, g, s);
        fused_tail_gives_sum::<G, F, B>(c, of, act, bases, scalars, p, s, t3);
    } else {
        assert(rest =~= tail);
        crate::msm_laws::listed_make_all::<G>(act, e, e, bases, scalars, p, Seq::empty(), 0);
        fused_tail_gives_sum::<G, F, B>(c, of, act, bases, scalars, p, s, t1);
    }
}

proof fn room_after_buckets<P>(d: MsmDevice<P>, e: MsmDevice<P>, s: MsmSizes)
    requires
        has_room(d, s),
        crate::msm_laws::buckets_changed(d, e),
    ensures
        has_room(e, s),
        points_kept(d, e),
{
    assert(e.digits[DIGITS] == d.digits[DIGITS]);
    assert(e.words[KEYS] == d.words[KEYS]);
    assert(e.words[VALUES] == d.words[VALUES]);
    assert(e.words[SORTED] == d.words[SORTED]);
    assert(e.words[COUNTS] == d.words[COUNTS]);
    assert(e.words[OFFSETS] == d.words[OFFSETS]);
    assert(e.words[NONEMPTY_IDS] == d.words[NONEMPTY_IDS]);
    assert(e.words[SCATTER_OFFSETS] == d.words[SCATTER_OFFSETS]);
    assert(e.words[NUM_NONEMPTY] == d.words[NUM_NONEMPTY]);
    assert(e.points[WINDOW_RESULTS] == d.points[WINDOW_RESULTS]);
    assert(e.points[FINAL_RESULT] == d.points[FINAL_RESULT]);
    assert(e.points[CHUNK_SBP] == d.points[CHUNK_SBP]);
    assert(e.points[CHUNK_SUM] == d.points[CHUNK_SUM]);
}

/// The buffers that the MSMs share are made as long as they are asked for.
#[verifier::spinoff_prover]
pub proof fn buffers_make_room<G: Group, F: PrimeField, B>(
    of: spec_fn(B) -> G::Point,
    act: spec_fn(int, G::Point) -> G::Point,
    s: MsmSizes,
    states: Seq<MsmDevice<G::Point>>,
)
    requires
        crate::msm_device::runs::<G, F, B>(
            of,
            act,
            crate::fused_msm::buffers_plan::<F, B>(s),
            states,
        ),
    ensures
        has_room(states.last(), s),
        points_kept(states[0], states.last()),
        states.last().words_out == states[0].words_out,
        states.last().points_out == states[0].points_out,
{
    let log = crate::fused_msm::buffers_plan::<F, B>(s);
    assert(log.len() == 14);
    assert(log[0] is Alloc && log[1] is Alloc && log[2] is Alloc && log[3] is Alloc && log[4]
        is Alloc && log[5] is Alloc && log[6] is Alloc && log[7] is Alloc && log[8] is Alloc
        && log[9] is Upload && log[10] is Upload && log[11] is Upload && log[12] is Alloc && log[13]
        is Alloc);
    assert(states[9].digits[DIGITS].len() == s.digits && states[9].words[KEYS].len() == s.pairs
        && states[9].words[VALUES].len() == s.pairs && states[9].words[SORTED].len() == s.pairs
        && states[9].words[COUNTS].len() == s.buckets && states[9].words[OFFSETS].len() == s.buckets
        && states[9].words[NONEMPTY_IDS].len() == s.buckets && states[9].words[SCATTER_OFFSETS].len()
        == s.buckets && states[9].words[NUM_NONEMPTY].len() == 1);
}

} // verus!
