//! What sort-based MSMs compute.
//!
//! The laws speak of every run of the commands of an MSM on a device whose kernels do what they are
//! for, as [`crate::msm_device`] says it.

use vstd::prelude::*;

use crate::field::PrimeField;
use crate::group::Group;
use crate::msm_device::MsmDevice;
use crate::multiexp::{SortedMsmParams, CHUNK_SIZE, LOCAL_WORK_SIZE};
use crate::sorted_msm::{
    BASES, BUCKET_RESULTS, CHUNK_SBP, CHUNK_SUM, COUNTS, DIGITS, DISPATCH_TABLE, FINAL_RESULT, KEYS,
    NONEMPTY_IDS, NUM_NONEMPTY, OFFSETS, PARTIAL_RESULTS, REDUCE_TABLE, SCALARS, SCATTER_OFFSETS,
    SORTED, VALUES, WINDOW_RESULTS,
};

verus! {

/// Whether nothing has changed on a device but the sums of the buckets and the tables for them.
pub open spec fn buckets_changed<P>(d: MsmDevice<P>, e: MsmDevice<P>) -> bool {
    &&& forall|o: usize|
        (o < DISPATCH_TABLE || o > REDUCE_TABLE) && o != BUCKET_RESULTS ==> #[trigger] e.points[o]
            == d.points[o]
    &&& forall|o: usize|
        o < DISPATCH_TABLE || o > REDUCE_TABLE ==> #[trigger] e.words[o] == d.words[o]
    &&& forall|o: usize|
        o < DISPATCH_TABLE || o > REDUCE_TABLE ==> #[trigger] e.digits[o] == d.digits[o]
    &&& e.points[BUCKET_RESULTS].len() == d.points[BUCKET_RESULTS].len()
    &&& e.words_out == d.words_out
    &&& e.points_out == d.points_out
}

/// Whether the pairs of the listed buckets stand for bases.
pub open spec fn listed_in_range(
    sorted: Seq<u32>,
    offsets: Seq<u32>,
    counts: Seq<u32>,
    ids: Seq<u32>,
    num_nonempty: nat,
    n: nat,
) -> bool {
    forall|t: int, r: int|
        #![trigger crate::sorted_laws::members_of(sorted, offsets, counts, ids[t] as int)[r]]
        0 <= t < num_nonempty && 0 <= r < counts[ids[t] as int] ==> 0
            <= crate::sorted_laws::members_of(sorted, offsets, counts, ids[t] as int)[r].base < n
}

/// The commands that add up the buckets leave the sum of its pairs in every listed bucket, whether
/// buckets are split into chunks or not, and do not touch the others.
pub proof fn accumulate_adds_up<G: Group, F: PrimeField, B>(
    c: Set<G::Point>,
    of: spec_fn(B) -> G::Point,
    act: spec_fn(int, G::Point) -> G::Point,
    counts: Seq<u32>,
    ids: Seq<u32>,
    num_nonempty: nat,
    states: Seq<MsmDevice<G::Point>>,
)
    requires
        crate::group::abelian::<G>(c),
        crate::single_multiexp::integer_action::<G>(c, act),
        crate::group::all_in(c, states[0].points[BASES]),
        crate::dispatch::listed(counts, ids, num_nonempty),
        num_nonempty <= u32::MAX,
        crate::dispatch::all_chunks(counts, ids, num_nonempty).len() <= u32::MAX,
        states[0].words[NONEMPTY_IDS].len() >= num_nonempty,
        forall|t: int|
            0 <= t < num_nonempty ==> (#[trigger] ids[t]) == states[0].words[NONEMPTY_IDS][t]
                && counts[ids[t] as int] == states[0].words[COUNTS][ids[t] as int],
        listed_in_range(
            states[0].words[SORTED],
            states[0].words[OFFSETS],
            states[0].words[COUNTS],
            ids,
            num_nonempty,
            states[0].points[BASES].len(),
        ),
        crate::msm_device::runs::<G, F, B>(
            of,
            act,
            crate::sorted_msm::accumulate(counts, ids, num_nonempty),
            states,
        ),
    ensures
        buckets_changed(states[0], states.last()),
        forall|t: int|
            0 <= t < num_nonempty ==> states.last().points[BUCKET_RESULTS][(#[trigger] ids[t]) as int]
                == crate::msm_device::bucket_sum::<G>(
                act,
                states[0].points[BASES],
                states[0].words[SORTED],
                states[0].words[OFFSETS][ids[t] as int] as int,
                counts[ids[t] as int] as nat,
            ),
        forall|b: int|
            0 <= b < states[0].points[BUCKET_RESULTS].len() && (forall|t: int|
                0 <= t < num_nonempty ==> #[trigger] ids[t] != b)
                ==> #[trigger] states.last().points[BUCKET_RESULTS][b]
                == states[0].points[BUCKET_RESULTS][b],
{
    let d = states[0];
    let log = crate::sorted_msm::accumulate::<F, B>(counts, ids, num_nonempty);
    let chunks = crate::dispatch::all_chunks(counts, ids, num_nonempty);
    let listed = d.words[NONEMPTY_IDS];
    crate::field_device::groups_suffice(num_nonempty, LOCAL_WORK_SIZE);
    if chunks.len() == num_nonempty {
        assert(log.len() == 1 && log[0] is Launch);
        let e = states[1];
        let after = e.points[BUCKET_RESULTS];
        let before = d.points[BUCKET_RESULTS];
        let args = log[0]->args;
        assert(crate::field_device::word_arg(args, 6) == num_nonempty);
        assert(crate::field_device::slot_arg(args, 4) == NONEMPTY_IDS);
        assert(crate::field_device::slot_arg(args, 5) == BUCKET_RESULTS);
        assert forall|t: int| 0 <= t < num_nonempty implies after[(#[trigger] ids[t]) as int]
            == crate::msm_device::bucket_sum::<G>(
            act,
            d.points[BASES],
            d.words[SORTED],
            d.words[OFFSETS][ids[t] as int] as int,
            counts[ids[t] as int] as nat,
        ) by {
            assert(listed[t] == ids[t]);
        }
        assert forall|b: int|
            0 <= b < before.len() && (forall|t: int|
                0 <= t < num_nonempty ==> #[trigger] ids[t] != b) implies #[trigger] after[b]
            == before[b] by {
            assert forall|t: int| 0 <= t < num_nonempty implies #[trigger] listed[t] != b by {
                assert(ids[t] == listed[t]);
            }
        }
    } else {
        accumulate_in_chunks::<G, F, B>(c, of, act, counts, ids, num_nonempty, states);
    }
}

#[verifier::spinoff_prover]
proof fn accumulate_in_chunks<G: Group, F: PrimeField, B>(
    c: Set<G::Point>,
    of: spec_fn(B) -> G::Point,
    act: spec_fn(int, G::Point) -> G::Point,
    counts: Seq<u32>,
    ids: Seq<u32>,
    num_nonempty: nat,
    states: Seq<MsmDevice<G::Point>>,
)
    requires
        crate::group::abelian::<G>(c),
        crate::single_multiexp::integer_action::<G>(c, act),
        crate::group::all_in(c, states[0].points[BASES]),
        crate::dispatch::listed(counts, ids, num_nonempty),
        num_nonempty <= u32::MAX,
        crate::dispatch::all_chunks(counts, ids, num_nonempty).len() <= u32::MAX,
        crate::dispatch::all_chunks(counts, ids, num_nonempty).len() != num_nonempty,
        states[0].words[NONEMPTY_IDS].len() >= num_nonempty,
        forall|t: int|
            0 <= t < num_nonempty ==> (#[trigger] ids[t]) == states[0].words[NONEMPTY_IDS][t]
                && counts[ids[t] as int] == states[0].words[COUNTS][ids[t] as int],
        listed_in_range(
            states[0].words[SORTED],
            states[0].words[OFFSETS],
            states[0].words[COUNTS],
            ids,
            num_nonempty,
            states[0].points[BASES].len(),
        ),
        crate::msm_device::runs::<G, F, B>(
            of,
            act,
            crate::sorted_msm::accumulate(counts, ids, num_nonempty),
            states,
        ),
    ensures
        buckets_changed(states[0], states.last()),
        forall|t: int|
            0 <= t < num_nonempty ==> states.last().points[BUCKET_RESULTS][(#[trigger] ids[t]) as int]
                == crate::msm_device::bucket_sum::<G>(
                act,
                states[0].points[BASES],
                states[0].words[SORTED],
                states[0].words[OFFSETS][ids[t] as int] as int,
                counts[ids[t] as int] as nat,
            ),
        forall|b: int|
            0 <= b < states[0].points[BUCKET_RESULTS].len() && (forall|t: int|
                0 <= t < num_nonempty ==> #[trigger] ids[t] != b)
                ==> #[trigger] states.last().points[BUCKET_RESULTS][b]
                == states[0].points[BUCKET_RESULTS][b],
{
    let d = states[0];
    let log = crate::sorted_msm::accumulate::<F, B>(counts, ids, num_nonempty);
    let chunks = crate::dispatch::all_chunks(counts, ids, num_nonempty);
    let listed = d.words[NONEMPTY_IDS];
    let bases = d.points[BASES];
    let sorted = d.words[SORTED];
    let offsets = d.words[OFFSETS];
    let sizes = d.words[COUNTS];
    let table = crate::dispatch::chunk_words(chunks);
    let reduce = crate::dispatch::reduce_words(counts, ids, num_nonempty);
    crate::field_device::groups_suffice(num_nonempty, LOCAL_WORK_SIZE);
    crate::field_device::groups_suffice(chunks.len(), LOCAL_WORK_SIZE);
    assert(log.len() == 8 && log[0] is Upload && log[1] is Upload && log[2] is Launch && log[3]
        is Upload && log[4] is Launch && log[5] is Free && log[6] is Free && log[7] is Free);
    assert(states[2].words[DISPATCH_TABLE] == table);
    assert(states[2].points[BASES] == bases);
    assert(states[2].words[SORTED] == sorted);
    assert(states[2].words[OFFSETS] == offsets);
    assert(states[2].points[PARTIAL_RESULTS].len() == chunks.len());
    let partials = states[3].points[PARTIAL_RESULTS];
    assert(partials.len() == chunks.len());
    if chunks.len() > 0 {
        crate::dispatch::dispatch_table_entry(chunks, 0);
    } else {
        assert(table.len() == 0);
    }
    assert forall|k: int| 0 <= k < chunks.len() implies #[trigger] partials[k]
        == crate::msm_device::bucket_sum::<G>(
        act,
        bases,
        sorted,
        offsets[table[3 * k] as int] + table[3 * k + 1],
        table[3 * k + 2] as nat,
    ) by {}
    assert(states[4].words[REDUCE_TABLE] == reduce);
    assert(states[4].words[NONEMPTY_IDS] == listed);
    assert(states[4].points[PARTIAL_RESULTS] == partials);
    let before = d.points[BUCKET_RESULTS];
    assert(states[4].points[BUCKET_RESULTS] == before);
    let after = states[5].points[BUCKET_RESULTS];
    if num_nonempty > 0 {
        crate::dispatch::reduce_table_entry(counts, ids, num_nonempty, 0);
    } else {
        assert(reduce.len() == 0);
    }
    let args = log[4]->args;
    assert(crate::field_device::word_arg(args, 4) == num_nonempty);
    assert(crate::field_device::slot_arg(args, 3) == BUCKET_RESULTS);
    assert(reduce.len() >= 2 * num_nonempty);
    assert forall|t: int| 0 <= t < num_nonempty implies after[(#[trigger] listed[t]) as int]
        == crate::group::sum::<G>(
        partials.subrange(reduce[2 * t] as int, reduce[2 * t] + reduce[2 * t + 1]),
    ) by {}
    assert forall|t: int| 0 <= t < num_nonempty implies after[(#[trigger] ids[t]) as int]
        == crate::msm_device::bucket_sum::<G>(
        act,
        bases,
        sorted,
        offsets[ids[t] as int] as int,
        counts[ids[t] as int] as nat,
    ) by {
        let b = ids[t] as int;
        let count = counts[b];
        assert(listed[t] == ids[t]);
        assert(count == sizes[b]);
        let members = crate::sorted_laws::members_of(sorted, offsets, sizes, b);
        let first = crate::dispatch::all_chunks(counts, ids, t as nat).len();
        let mine = crate::dispatch::bucket_chunks(ids[t], count);
        crate::dispatch::reduce_table_entry(counts, ids, num_nonempty, t as nat);
        crate::dispatch::chunks_of_listed(counts, ids, num_nonempty, t as nat);
        crate::arith::ceil_div_least(count as int, CHUNK_SIZE as int);
        assert forall|j: int| 0 <= j < mine.len() implies #[trigger] partials[first + j]
            == crate::group::sum::<G>(
            crate::sorted_sum::entry_points::<G>(
                act,
                bases,
                members.subrange(j * CHUNK_SIZE, j * CHUNK_SIZE + mine[j].count),
            ),
        ) by {
            assert(chunks[first + j] == mine[j]);
            crate::dispatch::dispatch_table_entry(chunks, first + j);
            crate::sorted_laws::part_is_entries::<G>(
                act,
                bases,
                sorted,
                offsets,
                sizes,
                b,
                j * CHUNK_SIZE,
                j * CHUNK_SIZE + mine[j].count,
            );
        }
        assert forall|r: int| 0 <= r < members.len() implies 0 <= (#[trigger] members[r]).base
            < bases.len() by {
            assert(0 <= crate::sorted_laws::members_of(
                sorted,
                offsets,
                sizes,
                ids[t] as int,
            )[r].base);
        }
        crate::sorted_sum::chunks_add_up::<G>(
            c,
            act,
            bases,
            members,
            partials,
            first,
            ids[t],
            count,
            mine.len(),
        );
        let lo = reduce[2 * t] as int;
        let hi = reduce[2 * t] + reduce[2 * t + 1];
        assert(lo == first && hi == first + mine.len());
        assert(after[b] == crate::group::sum::<G>(partials.subrange(lo, hi)));
        assert(crate::arith::min_of(mine.len() * CHUNK_SIZE, count as int) == count);
        assert(members.take(count as int) =~= members.subrange(0, count as int));
        crate::sorted_laws::part_is_entries::<G>(
            act,
            bases,
            sorted,
            offsets,
            sizes,
            b,
            0,
            count as int,
        );
    }
    assert forall|b: int|
        0 <= b < before.len() && (forall|t: int|
            0 <= t < num_nonempty ==> #[trigger] ids[t] != b) implies #[trigger] after[b]
        == before[b] by {
        assert forall|t: int| 0 <= t < num_nonempty implies #[trigger] listed[t] != b by {
            assert(ids[t] == listed[t]);
        }
    }
    let e = states[8];
    assert(e.points[BUCKET_RESULTS] == after);
}

/// Whether a device holds the bases, and the pairs of the scalars, counted.
pub open spec fn counted_on<P>(
    d: MsmDevice<P>,
    bases: Seq<P>,
    scalars: Seq<nat>,
    p: SortedMsmParams,
) -> bool {
    &&& d.points[BASES] == bases
    &&& crate::sorted_laws::pairs_done(d.words[KEYS], d.words[VALUES], scalars, p)
    &&& crate::sorted_laws::counts_done(d.words[COUNTS], d.words[KEYS], p)
    &&& crate::sorted_laws::offsets_done(d.words[OFFSETS], d.words[COUNTS], p)
    &&& d.words[NONEMPTY_IDS].len() >= p.total_buckets()
    &&& d.words[NUM_NONEMPTY].len() >= 1
    &&& crate::msm_device::lists_nonempty(
        d.words[COUNTS],
        d.words[NONEMPTY_IDS],
        d.words[NUM_NONEMPTY][0] as nat,
        p.total_buckets(),
    )
}

/// Whether a device holds the bases, and the pairs of the scalars, counted and sorted.
pub open spec fn sorted_on<P>(
    d: MsmDevice<P>,
    bases: Seq<P>,
    scalars: Seq<nat>,
    p: SortedMsmParams,
) -> bool {
    &&& counted_on(d, bases, scalars, p)
    &&& crate::sorted_laws::sorted_done(
        d.words[SORTED],
        d.words[OFFSETS],
        d.words[COUNTS],
        scalars,
        p,
    )
}

/// Whether the buckets of a device are neutral.
pub open spec fn neutral_on<G: Group>(d: MsmDevice<G::Point>, p: SortedMsmParams) -> bool {
    &&& d.points[BUCKET_RESULTS].len() >= p.total_buckets()
    &&& forall|b: int|
        0 <= b < p.total_buckets() ==> #[trigger] d.points[BUCKET_RESULTS][b] == G::identity()
}

/// Whether a device holds the sorted pairs, and the sum of each bucket.
pub open spec fn summed_on<G: Group>(
    act: spec_fn(int, G::Point) -> G::Point,
    d: MsmDevice<G::Point>,
    bases: Seq<G::Point>,
    scalars: Seq<nat>,
    p: SortedMsmParams,
) -> bool {
    &&& crate::sorted_laws::sorted_done(
        d.words[SORTED],
        d.words[OFFSETS],
        d.words[COUNTS],
        scalars,
        p,
    )
    &&& crate::sorted_laws::buckets_done::<G>(
        act,
        bases,
        d.points[BUCKET_RESULTS],
        d.words[SORTED],
        d.words[OFFSETS],
        d.words[COUNTS],
        p,
    )
}

/// What the laws need of a group, of the bases and scalars of an MSM, and of its numbers.
pub open spec fn msm_ok<G: Group>(
    c: Set<G::Point>,
    act: spec_fn(int, G::Point) -> G::Point,
    bases: Seq<G::Point>,
    scalars: Seq<nat>,
    p: SortedMsmParams,
) -> bool {
    &&& crate::group::abelian::<G>(c)
    &&& crate::single_multiexp::integer_action::<G>(c, act)
    &&& crate::group::all_in(c, bases)
    &&& crate::sorted_laws::words_fit(p)
    &&& p.n_bases <= bases.len()
    &&& scalars.len() == p.n_bases
    &&& forall|j: int|
        0 <= j < scalars.len() ==> #[trigger] scalars[j] < vstd::arithmetic::power2::pow2(
            p.effective_bits as nat,
        )
}

/// Only the first bases are in the buckets.
proof fn members_are_first(
    sorted: Seq<u32>,
    offsets: Seq<u32>,
    counts: Seq<u32>,
    scalars: Seq<nat>,
    p: SortedMsmParams,
    b: int,
    r: int,
)
    requires
        p.fits(),
        crate::sorted_laws::sorted_done(sorted, offsets, counts, scalars, p),
        0 <= b < p.total_buckets(),
        0 <= r < counts[b],
    ensures
        0 <= crate::sorted_laws::members_of(sorted, offsets, counts, b)[r].base < p.n_bases,
{
    let size = p.buckets_per_window as int;
    crate::sorted_sum::bucket_at(p, b);
    let w = b / size;
    let k = b % size;
    assert(crate::sorted_sum::lists(
        crate::sorted_laws::members_of(
            sorted,
            offsets,
            counts,
            crate::sorted_sum::bucket_index(p, w, k),
        ),
        crate::sorted_sum::digits_of(scalars, p.window_size as nat),
        p.n_bases as nat,
        w,
        k,
    ));
    let s = crate::sorted_laws::members_of(sorted, offsets, counts, b);
    assert(0 <= s[r].base < p.n_bases);
}

/// Bases behind the first ones do not count.
pub proof fn first_bases_suffice<G: Group>(
    act: spec_fn(int, G::Point) -> G::Point,
    bases: Seq<G::Point>,
    buckets: Seq<G::Point>,
    sorted: Seq<u32>,
    offsets: Seq<u32>,
    counts: Seq<u32>,
    scalars: Seq<nat>,
    p: SortedMsmParams,
)
    requires
        p.fits(),
        p.n_bases <= bases.len(),
        crate::sorted_laws::sorted_done(sorted, offsets, counts, scalars, p),
        crate::sorted_laws::buckets_done::<G>(act, bases, buckets, sorted, offsets, counts, p),
    ensures
        crate::sorted_laws::buckets_done::<G>(
            act,
            bases.take(p.n_bases as int),
            buckets,
            sorted,
            offsets,
            counts,
            p,
        ),
{
    let first = bases.take(p.n_bases as int);
    assert forall|b: int| 0 <= b < p.total_buckets() implies #[trigger] buckets[b]
        == crate::msm_device::bucket_sum::<G>(
        act,
        first,
        sorted,
        offsets[b] as int,
        counts[b] as nat,
    ) by {
        let x = Seq::new(
            counts[b] as nat,
            |j: int|
                crate::msm_device::signed_base::<G>(act, bases, sorted[offsets[b] as int + j]),
        );
        let y = Seq::new(
            counts[b] as nat,
            |j: int|
                crate::msm_device::signed_base::<G>(act, first, sorted[offsets[b] as int + j]),
        );
        assert forall|j: int| 0 <= j < x.len() implies x[j] == y[j] by {
            members_are_first(sorted, offsets, counts, scalars, p, b, j);
            let v = sorted[offsets[b] + j];
            assert(crate::sorted_laws::members_of(sorted, offsets, counts, b)[j]
                == crate::sorted_laws::entry_of(v));
        }
        assert(x =~= y);
    }
}

/// The chunks of the listed buckets are no more than their points.
proof fn chunks_are_few(counts: Seq<u32>, ids: Seq<u32>, n: nat)
    ensures
        crate::dispatch::all_chunks(counts, ids, n).len() <= crate::dispatch::points_listed(
            counts,
            ids,
            n,
        ),
    decreases n,
{
    if n > 0 {
        chunks_are_few(counts, ids, (n - 1) as nat);
        crate::arith::ceil_div_least(counts[ids[n - 1] as int] as int, CHUNK_SIZE as int);
    }
}

proof fn listed_apart(counts: Seq<u32>, less: Seq<u32>, ids: Seq<u32>, n: nat, b: int)
    requires
        less == counts.update(b, 0),
        0 <= b < counts.len(),
        forall|t: int| 0 <= t < n ==> (#[trigger] ids[t]) < counts.len() && ids[t] != b,
    ensures
        crate::dispatch::points_listed(counts, ids, n) == crate::dispatch::points_listed(
            less,
            ids,
            n,
        ),
    decreases n,
{
    if n > 0 {
        listed_apart(counts, less, ids, (n - 1) as nat, b);
        assert(ids[n - 1] != b);
    }
}

proof fn counted_apart(counts: Seq<u32>, less: Seq<u32>, m: nat, b: int)
    requires
        less == counts.update(b, 0),
        0 <= b < counts.len(),
        m <= counts.len(),
    ensures
        crate::msm_device::count_before(counts, m) == crate::msm_device::count_before(less, m) + (
        if b < m {
            counts[b] as nat
        } else {
            0
        }),
    decreases m,
{
    if m > 0 {
        counted_apart(counts, less, (m - 1) as nat, b);
    }
}

/// Buckets that are listed once hold no more points than all buckets do.
proof fn listed_are_few(counts: Seq<u32>, ids: Seq<u32>, n: nat, m: nat)
    requires
        m <= counts.len(),
        forall|t: int| 0 <= t < n ==> (#[trigger] ids[t]) < m,
        forall|s: int, t: int| 0 <= s < t < n ==> (#[trigger] ids[s]) != (#[trigger] ids[t]),
    ensures
        crate::dispatch::points_listed(counts, ids, n) <= crate::msm_device::count_before(
            counts,
            m,
        ),
    decreases n,
{
    if n > 0 {
        let b = ids[n - 1] as int;
        let less = counts.update(b, 0);
        listed_are_few(less, ids, (n - 1) as nat, m);
        assert forall|t: int| 0 <= t < n - 1 implies (#[trigger] ids[t]) < counts.len() && ids[t]
            != b by {
            assert(ids[t] != ids[n - 1]);
        }
        listed_apart(counts, less, ids, (n - 1) as nat, b);
        counted_apart(counts, less, m, b);
    }
}

/// Listed buckets have few chunks, and their pairs stand for bases.
pub proof fn listed_fit<G: Group>(
    c: Set<G::Point>,
    act: spec_fn(int, G::Point) -> G::Point,
    d: MsmDevice<G::Point>,
    bases: Seq<G::Point>,
    scalars: Seq<nat>,
    p: SortedMsmParams,
    counts: Seq<u32>,
    ids: Seq<u32>,
    num_nonempty: nat,
)
    requires
        msm_ok::<G>(c, act, bases, scalars, p),
        sorted_on(d, bases, scalars, p),
        num_nonempty == d.words[NUM_NONEMPTY][0],
        counts == d.words[COUNTS].take(p.total_buckets() as int),
        ids == d.words[NONEMPTY_IDS].take(p.total_buckets() as int),
    ensures
        crate::dispatch::listed(counts, ids, num_nonempty),
        num_nonempty <= u32::MAX,
        crate::dispatch::all_chunks(counts, ids, num_nonempty).len() <= u32::MAX,
        forall|t: int|
            0 <= t < num_nonempty ==> (#[trigger] ids[t]) == d.words[NONEMPTY_IDS][t]
                && counts[ids[t] as int] == d.words[COUNTS][ids[t] as int],
        listed_in_range(
            d.words[SORTED],
            d.words[OFFSETS],
            d.words[COUNTS],
            ids,
            num_nonempty,
            bases.len(),
        ),
{
    p.bounds();
    let tb = p.total_buckets();
    let all = d.words[COUNTS];
    let listed = d.words[NONEMPTY_IDS];
    assert forall|t: int| 0 <= t < num_nonempty implies (#[trigger] ids[t]) == listed[t] && ids[t]
        < tb && counts[ids[t] as int] == all[ids[t] as int] by {
        assert(listed[t] < tb);
    }
    assert forall|s: int, t: int| 0 <= s < t < num_nonempty implies (#[trigger] ids[s]) != (
    #[trigger] ids[t]) by {
        assert(listed[s] != listed[t]);
    }
    chunks_are_few(counts, ids, num_nonempty);
    listed_are_few(counts, ids, num_nonempty, tb);
    crate::sorted_laws::count_is_pairs(all, d.words[KEYS], p);
    crate::sorted_laws::count_of_first(all, tb);
    assert forall|t: int, r: int|
        #![trigger crate::sorted_laws::members_of(
            d.words[SORTED],
            d.words[OFFSETS],
            all,
            ids[t] as int,
        )[r]]
        0 <= t < num_nonempty && 0 <= r < all[ids[t] as int] implies 0
        <= crate::sorted_laws::members_of(
        d.words[SORTED],
        d.words[OFFSETS],
        all,
        ids[t] as int,
    )[r].base < bases.len() by {
        members_are_first(
            d.words[SORTED],
            d.words[OFFSETS],
            all,
            scalars,
            p,
            ids[t] as int,
            r,
        );
    }
}

/// With the listed buckets added up and the others neutral, each bucket is the sum of its pairs.
pub proof fn listed_make_all<G: Group>(
    act: spec_fn(int, G::Point) -> G::Point,
    d: MsmDevice<G::Point>,
    e: MsmDevice<G::Point>,
    bases: Seq<G::Point>,
    scalars: Seq<nat>,
    p: SortedMsmParams,
    ids: Seq<u32>,
    num_nonempty: nat,
)
    requires
        sorted_on(d, bases, scalars, p),
        neutral_on::<G>(d, p),
        buckets_changed(d, e),
        num_nonempty == d.words[NUM_NONEMPTY][0],
        forall|t: int| 0 <= t < num_nonempty ==> (#[trigger] ids[t]) == d.words[NONEMPTY_IDS][t],
        forall|t: int|
            0 <= t < num_nonempty ==> e.points[BUCKET_RESULTS][(#[trigger] ids[t]) as int]
                == crate::msm_device::bucket_sum::<G>(
                act,
                bases,
                d.words[SORTED],
                d.words[OFFSETS][ids[t] as int] as int,
                d.words[COUNTS][ids[t] as int] as nat,
            ),
        forall|b: int|
            0 <= b < d.points[BUCKET_RESULTS].len() && (forall|t: int|
                0 <= t < num_nonempty ==> #[trigger] ids[t] != b)
                ==> #[trigger] e.points[BUCKET_RESULTS][b] == d.points[BUCKET_RESULTS][b],
    ensures
        summed_on::<G>(act, e, bases, scalars, p),
{
    let tb = p.total_buckets();
    let counts = d.words[COUNTS];
    let listed = d.words[NONEMPTY_IDS];
    let after = e.points[BUCKET_RESULTS];
    let before = d.points[BUCKET_RESULTS];
    assert forall|b: int| 0 <= b < tb implies #[trigger] after[b]
        == crate::msm_device::bucket_sum::<G>(
        act,
        bases,
        d.words[SORTED],
        d.words[OFFSETS][b] as int,
        counts[b] as nat,
    ) by {
        if forall|t: int| 0 <= t < num_nonempty ==> #[trigger] ids[t] != b {
            if counts[b] > 0 {
                let t = choose|t: int| 0 <= t < num_nonempty && #[trigger] listed[t] == b;
                assert(ids[t] == listed[t]);
            }
            assert(before[b] == G::identity());
            assert(after[b] == before[b]);
            assert(Seq::new(
                0,
                |j: int|
                    crate::msm_device::signed_base::<G>(
                        act,
                        bases,
                        d.words[SORTED][d.words[OFFSETS][b] as int + j],
                    ),
            ) =~= Seq::empty());
        } else {
            let t = choose|t: int| 0 <= t < num_nonempty && #[trigger] ids[t] == b;
            assert(after[ids[t] as int] == after[b]);
        }
    }
    assert(e.words[SORTED] == d.words[SORTED]);
    assert(e.words[OFFSETS] == d.words[OFFSETS]);
    assert(e.words[COUNTS] == d.words[COUNTS]);
}

/// The first stage of a sort-based multiexponentiation.
#[verifier::spinoff_prover]
proof fn start_counts<G: Group, F: PrimeField, B>(
    c: Set<G::Point>,
    of: spec_fn(B) -> G::Point,
    act: spec_fn(int, G::Point) -> G::Point,
    bases: Seq<B>,
    exponents: Seq<[u64; 4]>,
    p: SortedMsmParams,
    states: Seq<MsmDevice<G::Point>>,
)
    requires
        msm_ok::<G>(
            c,
            act,
            bases.map_values(of),
            crate::single_multiexp::exponent_values(exponents),
            p,
        ),
        crate::msm_device::runs::<G, F, B>(
            of,
            act,
            crate::sorted_multiexp::start_plan(
                bases,
                crate::single_multiexp::exponent_bytes(exponents),
                p,
            ),
            states,
        ),
    ensures
        counted_on(
            states.last(),
            bases.map_values(of),
            crate::single_multiexp::exponent_values(exponents),
            p,
        ),
        states.last().words_out == states[0].words_out.push(
            states.last().words[NUM_NONEMPTY].take(1),
        ).push(states.last().words[OFFSETS].take(p.total_buckets() as int)),
        states.last().points_out == states[0].points_out,
{
    let points = bases.map_values(of);
    let scalars = crate::single_multiexp::exponent_values(exponents);
    let log = crate::sorted_multiexp::start_plan::<F, B>(
        bases,
        crate::single_multiexp::exponent_bytes(exponents),
        p,
    );
    p.bounds();
    bytes_held::<G, F, B>(of, act, bases, exponents, p, states);
    assert(log[2] is Alloc && log[3] is Launch);
    crate::sorted_laws::step_preprocess::<G, F, B>(
        of,
        act,
        states[3],
        states[4],
        SCALARS,
        p,
        LOCAL_WORK_SIZE,
        scalars,
    );
    assert(log[4] is Alloc && log[5] is Alloc && log[6] is Launch);
    assert(states[4].points[BASES] == points);
    assert(states[6].digits[DIGITS] == states[4].digits[DIGITS]);
    assert(states[6].points[BASES] == points);
    crate::sorted_laws::step_decompose::<G, F, B>(of, act, states[6], states[7], p, scalars);
    assert(log[7] is Upload && log[8] is Launch);
    assert(states[8].words[KEYS] == states[7].words[KEYS]);
    assert(states[8].words[VALUES] == states[7].words[VALUES]);
    assert(states[8].points[BASES] == points);
    crate::sorted_laws::step_count::<G, F, B>(of, act, states[8], states[9], p);
    assert(log[9] is Alloc && log[10] is Alloc && log[11] is Alloc && log[12] is Launch);
    let d = states[12];
    assert(d.words[KEYS] == states[8].words[KEYS]);
    assert(d.words[VALUES] == states[8].words[VALUES]);
    assert(d.words[COUNTS] == states[9].words[COUNTS]);
    assert(d.points[BASES] == points);
    crate::sorted_laws::step_prefix::<G, F, B>(of, act, d, states[13], p);
    let e = states[13];
    assert(e.words[KEYS] == d.words[KEYS]);
    assert(e.words[VALUES] == d.words[VALUES]);
    assert(e.words[COUNTS] == d.words[COUNTS]);
    assert(e.points[BASES] == points);
    assert(counted_on(e, points, scalars, p));
    assert(log[13] is Read && log[14] is Read);
    assert(e.words_out == states[0].words_out);
    assert(states[15].words == e.words && states[15].points == e.points);
    assert(states[15].words_out == states[0].words_out.push(e.words[NUM_NONEMPTY].take(1)).push(
        e.words[OFFSETS].take(p.total_buckets() as int),
    ));
}

proof fn bytes_held<G: Group, F: PrimeField, B>(
    of: spec_fn(B) -> G::Point,
    act: spec_fn(int, G::Point) -> G::Point,
    bases: Seq<B>,
    exponents: Seq<[u64; 4]>,
    p: SortedMsmParams,
    states: Seq<MsmDevice<G::Point>>,
)
    requires
        p.fits(),
        exponents.len() == p.n_bases,
        crate::msm_device::runs::<G, F, B>(
            of,
            act,
            crate::sorted_multiexp::start_plan(
                bases,
                crate::single_multiexp::exponent_bytes(exponents),
                p,
            ),
            states,
        ),
    ensures
        crate::sorted_laws::holds_scalars(
            states[3],
            SCALARS,
            crate::single_multiexp::exponent_values(exponents),
            p,
        ),
        states[3].points[BASES] == bases.map_values(of),
        states[3].digits[DIGITS].len() == p.total_pairs(),
        states[3].words_out == states[0].words_out,
        states[3].points_out == states[0].points_out,
{
    let log = crate::sorted_multiexp::start_plan::<F, B>(
        bases,
        crate::single_multiexp::exponent_bytes(exponents),
        p,
    );
    assert(log[0] is Upload && log[1] is Upload && log[2] is Alloc);
    crate::multiexp_laws::bytes_are_exponents(exponents);
}

/// The steps from the sums of the buckets to the result.
#[verifier::spinoff_prover]
proof fn tail_gives_sum<G: Group, F: PrimeField, B>(
    c: Set<G::Point>,
    of: spec_fn(B) -> G::Point,
    act: spec_fn(int, G::Point) -> G::Point,
    bases: Seq<G::Point>,
    scalars: Seq<nat>,
    p: SortedMsmParams,
    states: Seq<MsmDevice<G::Point>>,
)
    requires
        msm_ok::<G>(c, act, bases, scalars, p),
        summed_on::<G>(act, states[0], bases, scalars, p),
        crate::msm_device::runs::<G, F, B>(
            of,
            act,
            crate::sorted_multiexp::tail_plan(p),
            states,
        ),
    ensures
        states.last().words_out == states[0].words_out,
        states.last().points_out == states[0].points_out.push(
            seq![
                crate::sorted_sum::multiples::<G>(act, bases.take(p.n_bases as int), scalars),
            ],
        ),
{
    let log = crate::sorted_multiexp::tail_plan::<F, B>(p);
    let d = states[0];
    p.bounds();
    assert(log[0] is Alloc && log[1] is Alloc && log[2] is Launch && log[3] is Upload && log[4]
        is Launch && log[5] is Upload && log[6] is Launch && log[7] is Read);
    let buckets = d.points[BUCKET_RESULTS];
    assert(states[2].points[BUCKET_RESULTS] == buckets);
    crate::sorted_laws::step_reduce::<G, F, B>(of, act, states[2], states[3], p);
    let sbp = states[3].points[CHUNK_SBP];
    let sums = states[3].points[CHUNK_SUM];
    assert(states[4].points[CHUNK_SBP] == sbp && states[4].points[CHUNK_SUM] == sums);
    crate::sorted_laws::step_combine::<G, F, B>(of, act, states[4], states[5], p);
    let windows = states[5].points[WINDOW_RESULTS];
    assert(states[6].points[WINDOW_RESULTS] == windows);
    crate::sorted_laws::step_windows::<G, F, B>(of, act, states[6], states[7], p);
    let sum = crate::sorted_sum::multiples::<G>(act, bases.take(p.n_bases as int), scalars);
    first_bases_suffice::<G>(
        act,
        bases,
        buckets,
        d.words[SORTED],
        d.words[OFFSETS],
        d.words[COUNTS],
        scalars,
        p,
    );
    crate::sorted_laws::windows_make_sum::<G>(
        c,
        act,
        bases.take(p.n_bases as int),
        scalars,
        p,
        d.words[SORTED],
        d.words[OFFSETS],
        d.words[COUNTS],
        buckets,
        sbp,
        sums,
        windows,
    );
    let result = states[7].points[FINAL_RESULT];
    assert(result.len() == 1 && result[0] == sum);
    assert(result.take(1) =~= seq![sum]);
    assert(states[7].words_out == d.words_out);
    assert(states[7].points_out == d.points_out);
}

/// The stage after the offsets are known, up to where the buckets are neutral.
#[verifier::spinoff_prover]
proof fn offsets_sort<G: Group, F: PrimeField, B>(
    c: Set<G::Point>,
    of: spec_fn(B) -> G::Point,
    act: spec_fn(int, G::Point) -> G::Point,
    bases: Seq<G::Point>,
    scalars: Seq<nat>,
    p: SortedMsmParams,
    num_nonempty: nat,
    offsets: Seq<u32>,
    states: Seq<MsmDevice<G::Point>>,
)
    requires
        msm_ok::<G>(c, act, bases, scalars, p),
        counted_on(states[0], bases, scalars, p),
        offsets == states[0].words[OFFSETS].take(p.total_buckets() as int),
        crate::msm_device::runs::<G, F, B>(
            of,
            act,
            crate::sorted_multiexp::offsets_plan::<F, B>(p, num_nonempty, offsets).take(4),
            states,
        ),
    ensures
        sorted_on(states.last(), bases, scalars, p),
        neutral_on::<G>(states.last(), p),
        states.last().words[COUNTS] == states[0].words[COUNTS],
        states.last().words[NONEMPTY_IDS] == states[0].words[NONEMPTY_IDS],
        states.last().words[NUM_NONEMPTY] == states[0].words[NUM_NONEMPTY],
        states.last().words_out == states[0].words_out,
        states.last().points_out == states[0].points_out,
{
    let log = crate::sorted_multiexp::offsets_plan::<F, B>(p, num_nonempty, offsets).take(4);
    let d = states[0];
    p.bounds();
    assert(log[0] is Upload && log[1] is Alloc && log[2] is Launch && log[3] is Upload);
    assert(states[2].words[SCATTER_OFFSETS] == offsets);
    assert forall|b: int| 0 <= b < p.total_buckets() implies #[trigger] states[2].words[
        SCATTER_OFFSETS
    ][b] == states[2].words[OFFSETS][b] by {}
    crate::sorted_laws::step_scatter::<G, F, B>(of, act, states[2], states[3], p, scalars);
    let e = states[4];
    assert(e.words[SORTED] == states[3].words[SORTED]);
    assert(e.words[OFFSETS] == d.words[OFFSETS]);
    assert(e.words[COUNTS] == d.words[COUNTS]);
    assert(e.words[KEYS] == d.words[KEYS]);
    assert(e.words[VALUES] == d.words[VALUES]);
    assert(e.words[NONEMPTY_IDS] == d.words[NONEMPTY_IDS]);
    assert(e.words[NUM_NONEMPTY] == d.words[NUM_NONEMPTY]);
    assert(e.points[BASES] == bases);
}

/// A sort-based multiexponentiation gives one point, the sum of the multiples of all bases by their
/// exponents. Whoever runs the session hands over what the device reported: the number of buckets
/// that are not empty and the offsets after the first stage, the counts and the list of those
/// buckets after the second.
///
/// The numbers that kernels are told are 32 bit words, and one bit of the words that stand for bases
/// is the sign, so that the law needs numbers that fit.
pub proof fn multiexp_sorted_gives_sum_of_multiples<G: Group, F: PrimeField, B>(
    c: Set<G::Point>,
    of: spec_fn(B) -> G::Point,
    act: spec_fn(int, G::Point) -> G::Point,
    bases: Seq<B>,
    exponents: Seq<[u64; 4]>,
    work_units: nat,
    p: SortedMsmParams,
    num_nonempty: nat,
    offsets: Seq<u32>,
    counts: Seq<u32>,
    ids: Seq<u32>,
    states: Seq<MsmDevice<G::Point>>,
)
    requires
        crate::group::abelian::<G>(c),
        crate::single_multiexp::integer_action::<G>(c, act),
        crate::group::all_in(c, bases.map_values(of)),
        exponents.len() == bases.len(),
        bases.len() > 0,
        crate::sorted_multiexp::splits_sorted(p, bases.len(), work_units, exponents),
        crate::sorted_laws::words_fit(p),
        crate::msm_device::runs::<G, F, B>(
            of,
            act,
            crate::sorted_multiexp::start_plan(
                bases,
                crate::single_multiexp::exponent_bytes(exponents),
                p,
            ) + crate::sorted_multiexp::offsets_plan(p, num_nonempty, offsets) + (if num_nonempty
                > 0 {
                crate::sorted_multiexp::counts_plan(p, num_nonempty, counts, ids)
            } else {
                Seq::empty()
            }),
            states,
        ),
        states[0].words_out.len() == 0,
        states[0].points_out.len() == 0,
        states.last().words_out[0][0] == num_nonempty,
        states.last().words_out[1] == offsets,
        num_nonempty > 0 ==> states.last().words_out[2] == counts && states.last().words_out[3]
            == ids,
    ensures
        num_nonempty > 0 ==> crate::dispatch::listed(counts, ids, num_nonempty),
        states.last().points_out == seq![
            seq![
                crate::sorted_sum::multiples::<G>(
                    act,
                    bases.map_values(of),
                    crate::single_multiexp::exponent_values(exponents),
                ),
            ],
        ],
{
    let points = bases.map_values(of);
    let scalars = crate::single_multiexp::exponent_values(exponents);
    let tb = p.total_buckets();
    crate::multiexp::max_bits_tight(scalars);
    assert(points.take(p.n_bases as int) =~= points);
    let start = crate::sorted_multiexp::start_plan::<F, B>(
        bases,
        crate::single_multiexp::exponent_bytes(exponents),
        p,
    );
    let middle = crate::sorted_multiexp::offsets_plan::<F, B>(p, num_nonempty, offsets);
    let end: Seq<crate::session::Cmd<F, B>> = if num_nonempty > 0 {
        crate::sorted_multiexp::counts_plan(p, num_nonempty, counts, ids)
    } else {
        Seq::empty()
    };
    let tail = crate::sorted_multiexp::tail_plan::<F, B>(p);
    let head = middle.take(4);
    let rest = middle.skip(4);
    assert(start + middle + end =~= start + (head + (rest + end)));
    crate::msm_device::runs_in_two::<G, F, B>(of, act, start, head + (rest + end), states);
    let s1 = states.take(start.len() as int + 1);
    let t1 = states.skip(start.len() as int);
    start_counts::<G, F, B>(c, of, act, bases, exponents, p, s1);
    crate::msm_device::runs_in_two::<G, F, B>(of, act, head, rest + end, t1);
    let s2 = t1.take(5);
    let t2 = t1.skip(4);
    let d = s1.last();
    assert(s2[0] == d);
    crate::msm_device::words_out_grow::<G, F, B>(of, act, head + (rest + end), t1);
    assert(d.words_out[0] == states.last().words_out[0]);
    assert(d.words_out[1] == states.last().words_out[1]);
    assert(num_nonempty == d.words[NUM_NONEMPTY][0]);
    offsets_sort::<G, F, B>(c, of, act, points, scalars, p, num_nonempty, offsets, s2);
    let e = s2.last();
    assert(t2[0] == e);
    if num_nonempty > 0 {
        let sums = crate::sorted_msm::accumulate::<F, B>(counts, ids, num_nonempty);
        assert(rest + end =~= rest + (sums + tail));
        assert(rest.len() == 2);
        crate::msm_device::runs_in_two::<G, F, B>(of, act, rest, sums + tail, t2);
        let s3 = t2.take(3);
        let t3 = t2.skip(2);
        assert(rest[0] is Read && rest[1] is Read);
        let f = s3.last();
        assert(f.words == e.words && f.points == e.points);
        assert(f.words_out == e.words_out.push(e.words[COUNTS].take(tb as int)).push(
            e.words[NONEMPTY_IDS].take(tb as int),
        ));
        crate::msm_device::words_out_grow::<G, F, B>(of, act, sums + tail, t3);
        assert(f.words_out[2] == states.last().words_out[2]);
        assert(f.words_out[3] == states.last().words_out[3]);
        listed_fit::<G>(c, act, f, points, scalars, p, counts, ids, num_nonempty);
        crate::msm_device::runs_in_two::<G, F, B>(of, act, sums, tail, t3);
        let s4 = t3.take(sums.len() as int + 1);
        let t4 = t3.skip(sums.len() as int);
        accumulate_adds_up::<G, F, B>(c, of, act, counts, ids, num_nonempty, s4);
        listed_make_all::<G>(act, f, s4.last(), points, scalars, p, ids, num_nonempty);
        tail_gives_sum::<G, F, B>(c, of, act, points, scalars, p, t4);
    } else {
        assert(rest + end =~= tail);
        listed_make_all::<G>(act, e, e, points, scalars, p, Seq::empty(), 0);
        tail_gives_sum::<G, F, B>(c, of, act, points, scalars, p, t2);
    }
}

} // verus!
