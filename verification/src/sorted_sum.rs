//! Why the sort-based MSM gives the sum of the multiples of the bases.
//!
//! The device sorts the bases into buckets, adds up the buckets, weighs the buckets of each window
//! and combines the windows. What each of these steps leaves on the device is stated here, and that
//! the steps together make a multiexponentiation.

use vstd::prelude::*;

use crate::group::Group;
use crate::multiexp::{SortedMsmParams, CHUNK_SIZE, REDUCTION_CHUNK_SIZE};
use crate::single_multiexp::MultiexpShape;

verus! {

/// A base in a bucket.
pub struct Entry {
    /// The index of the base.
    pub base: int,
    /// Whether the base is subtracted instead of added.
    pub negative: bool,
}

/// What a sort-based MSM leaves on the device.
pub struct SortedRun<P> {
    /// The sorted pairs, bucket by bucket.
    pub members: Seq<Seq<Entry>>,
    /// The number of pairs of each bucket.
    pub counts: Seq<u32>,
    /// The buckets that are not empty.
    pub ids: Seq<u32>,
    /// How many buckets are not empty.
    pub num_nonempty: nat,
    /// The sum of each chunk, if large buckets are split into chunks.
    pub partials: Seq<P>,
    /// The sum of each bucket.
    pub buckets: Seq<P>,
    /// Weighted sums of chunks of buckets.
    pub chunk_sbp: Seq<P>,
    /// Sums of chunks of buckets.
    pub chunk_sum: Seq<P>,
    /// The sum of each window.
    pub windows: Seq<P>,
    /// The sum.
    pub result: P,
}

/// The signed digits of the scalars.
pub open spec fn digits_of(scalars: Seq<nat>, window_size: nat) -> spec_fn(int, int) -> int {
    |j: int, w: int| crate::booth::signed_digit(scalars[j], window_size, w as nat)
}

/// What a pair adds to its bucket.
pub open spec fn entry_point<G: Group>(
    act: spec_fn(int, G::Point) -> G::Point,
    bases: Seq<G::Point>,
    e: Entry,
) -> G::Point {
    if e.negative {
        act(-1, bases[e.base])
    } else {
        bases[e.base]
    }
}

/// What some pairs add to their bucket.
pub open spec fn entry_points<G: Group>(
    act: spec_fn(int, G::Point) -> G::Point,
    bases: Seq<G::Point>,
    s: Seq<Entry>,
) -> Seq<G::Point> {
    s.map_values(|e: Entry| entry_point::<G>(act, bases, e))
}

/// Whether pairs are those of bucket `k` of window `w`: each of the first `n` bases whose digit has
/// magnitude `k + 1` is there once, subtracted if the digit is negative, and no other base is.
pub open spec fn lists(
    s: Seq<Entry>,
    digits: spec_fn(int, int) -> int,
    n: nat,
    w: int,
    k: int,
) -> bool {
    &&& forall|i: int|
        0 <= i < s.len() ==> 0 <= (#[trigger] s[i]).base < n && digits(s[i].base, w) == (
        if s[i].negative {
            -(k + 1)
        } else {
            k + 1
        })
    &&& forall|i: int, j: int|
        0 <= i < j < s.len() ==> (#[trigger] s[i]).base != (#[trigger] s[j]).base
    &&& forall|b: int|
        0 <= b < n && (#[trigger] digits(b, w) == k + 1 || digits(b, w) == -(k + 1))
            ==> exists|i: int| 0 <= i < s.len() && (#[trigger] s[i]).base == b
}

/// The index of bucket `k` of window `w`.
pub open spec fn bucket_index(p: SortedMsmParams, w: int, k: int) -> int {
    w * p.buckets_per_window + k
}

/// Whether the pairs are sorted into the buckets, in whatever order within a bucket.
pub open spec fn sorted<P>(
    run: SortedRun<P>,
    digits: spec_fn(int, int) -> int,
    p: SortedMsmParams,
) -> bool {
    &&& run.members.len() == p.total_buckets()
    &&& forall|w: int, k: int|
        0 <= w < p.num_windows && 0 <= k < p.buckets_per_window ==> lists(
            #[trigger] run.members[bucket_index(p, w, k)],
            digits,
            p.n_bases as nat,
            w,
            k,
        )
}

/// Whether the buckets have been counted, and those that are not empty have been listed.
pub open spec fn counted<P>(run: SortedRun<P>) -> bool {
    &&& run.counts.len() == run.members.len()
    &&& forall|b: int|
        0 <= b < run.members.len() ==> #[trigger] run.counts[b] == run.members[b].len()
    &&& crate::dispatch::listed(run.counts, run.ids, run.num_nonempty)
    &&& forall|b: int|
        0 <= b < run.members.len() && (#[trigger] run.members[b]).len() > 0 ==> exists|t: int|
            0 <= t < run.num_nonempty && #[trigger] run.ids[t] == b
}

/// Whether each listed bucket has been added up by one thread.
pub open spec fn added_at_once<G: Group>(
    run: SortedRun<G::Point>,
    act: spec_fn(int, G::Point) -> G::Point,
    bases: Seq<G::Point>,
) -> bool {
    forall|t: int|
        0 <= t < run.num_nonempty ==> run.buckets[(#[trigger] run.ids[t]) as int]
            == crate::group::sum::<G>(
            entry_points::<G>(act, bases, run.members[run.ids[t] as int]),
        )
}

/// Whether each chunk of the dispatch table has been added up, and the chunks of each listed bucket
/// as the reduce table says.
pub open spec fn added_in_chunks<G: Group>(
    run: SortedRun<G::Point>,
    act: spec_fn(int, G::Point) -> G::Point,
    bases: Seq<G::Point>,
) -> bool {
    let chunks = crate::dispatch::all_chunks(run.counts, run.ids, run.num_nonempty);
    let dispatch = crate::dispatch::chunk_words(chunks);
    let reduce = crate::dispatch::reduce_words(run.counts, run.ids, run.num_nonempty);
    &&& chunks.len() <= u32::MAX
    &&& run.partials.len() == chunks.len()
    &&& forall|k: int|
        0 <= k < chunks.len() ==> #[trigger] run.partials[k] == crate::group::sum::<G>(
            entry_points::<G>(
                act,
                bases,
                run.members[dispatch[3 * k] as int].subrange(
                    dispatch[3 * k + 1] as int,
                    dispatch[3 * k + 1] + dispatch[3 * k + 2],
                ),
            ),
        )
    &&& forall|t: int|
        0 <= t < run.num_nonempty ==> run.buckets[(#[trigger] run.ids[t]) as int]
            == crate::group::sum::<G>(
            run.partials.subrange(reduce[2 * t] as int, reduce[2 * t] + reduce[2 * t + 1]),
        )
}

/// Whether the buckets have been added up, with the kernels that the dispatch tables ask for. A
/// bucket that is not listed is neutral.
pub open spec fn accumulated<G: Group>(
    run: SortedRun<G::Point>,
    act: spec_fn(int, G::Point) -> G::Point,
    bases: Seq<G::Point>,
) -> bool {
    &&& run.buckets.len() == run.members.len()
    &&& forall|b: int|
        0 <= b < run.buckets.len() && (forall|t: int|
            0 <= t < run.num_nonempty ==> #[trigger] run.ids[t] != b) ==> #[trigger] run.buckets[b]
            == G::identity()
    &&& if crate::dispatch::all_chunks(run.counts, run.ids, run.num_nonempty).len()
        == run.num_nonempty {
        added_at_once::<G>(run, act, bases)
    } else {
        added_in_chunks::<G>(run, act, bases)
    }
}

/// Whether each bucket is the sum of its pairs.
pub open spec fn added_up<G: Group>(
    run: SortedRun<G::Point>,
    act: spec_fn(int, G::Point) -> G::Point,
    bases: Seq<G::Point>,
) -> bool {
    &&& run.buckets.len() == run.members.len()
    &&& forall|b: int|
        0 <= b < run.buckets.len() ==> #[trigger] run.buckets[b] == crate::group::sum::<G>(
            entry_points::<G>(act, bases, run.members[b]),
        )
}

/// The length of chunk `i` of the buckets of a window.
pub open spec fn chunk_len(p: SortedMsmParams, i: int) -> nat {
    (crate::arith::min_of((i + 1) * REDUCTION_CHUNK_SIZE, p.buckets_per_window as int) - i
        * REDUCTION_CHUNK_SIZE) as nat
}

/// The buckets of chunk `i` of window `w`.
pub open spec fn chunk_buckets<P>(buckets: Seq<P>, p: SortedMsmParams, w: int, i: int) -> Seq<P> {
    Seq::new(
        chunk_len(p, i),
        |l: int| buckets[bucket_index(p, w, i * REDUCTION_CHUNK_SIZE + l)],
    )
}

/// Points, each multiplied by its position, which starts at `first`.
pub open spec fn by_position<G: Group>(s: Seq<G::Point>, first: nat) -> Seq<G::Point> {
    Seq::new(s.len(), |l: int| crate::group::times::<G>((first + l) as nat, s[l]))
}

/// Whether the chunks of buckets have been added up, plainly and weighted by the position in the
/// chunk.
pub open spec fn reduced<G: Group>(run: SortedRun<G::Point>, p: SortedMsmParams) -> bool {
    forall|w: int, i: int|
        #![trigger chunk_buckets(run.buckets, p, w, i)]
        0 <= w < p.num_windows && 0 <= i < p.chunks_per_window() ==> {
            let at = w * p.chunks_per_window() + i;
            let mine = chunk_buckets(run.buckets, p, w, i);
            &&& run.chunk_sum[at] == crate::group::sum::<G>(mine)
            &&& run.chunk_sbp[at] == crate::group::sum::<G>(by_position::<G>(mine, 1))
        }
}

/// What chunk `i` of window `w` adds to the window: its weighted sum, and its plain sum for each
/// bucket below it.
pub open spec fn chunk_share<G: Group>(
    run: SortedRun<G::Point>,
    p: SortedMsmParams,
    w: int,
    i: int,
) -> G::Point {
    let at = w * p.chunks_per_window() + i;
    G::plus(
        run.chunk_sbp[at],
        crate::group::times::<G>((i * REDUCTION_CHUNK_SIZE) as nat, run.chunk_sum[at]),
    )
}

/// Whether the chunks of each window have been combined.
pub open spec fn combined<G: Group>(run: SortedRun<G::Point>, p: SortedMsmParams) -> bool {
    &&& run.windows.len() == p.num_windows
    &&& forall|w: int|
        0 <= w < p.num_windows ==> #[trigger] run.windows[w] == crate::group::sum::<G>(
            Seq::new(p.chunks_per_window(), |i: int| chunk_share::<G>(run, p, w, i)),
        )
}

/// The windows, each weighted by the position of its lowest bit.
pub open spec fn weighted<G: Group>(windows: Seq<G::Point>, window_size: nat) -> Seq<G::Point> {
    Seq::new(
        windows.len(),
        |w: int| crate::group::doubled::<G>(windows[w], (w * window_size) as nat),
    )
}

/// Whether every step of a sort-based MSM did what it is for, on the given scalars and bases. The
/// buckets are added up by kernels that are chosen from what the device reports.
pub open spec fn ran<G: Group>(
    run: SortedRun<G::Point>,
    act: spec_fn(int, G::Point) -> G::Point,
    bases: Seq<G::Point>,
    scalars: Seq<nat>,
    p: SortedMsmParams,
) -> bool {
    &&& sorted(run, digits_of(scalars, p.window_size as nat), p)
    &&& counted(run)
    &&& accumulated::<G>(run, act, bases)
    &&& reduced::<G>(run, p)
    &&& combined::<G>(run, p)
    &&& run.result == crate::group::sum::<G>(
        weighted::<G>(run.windows, p.window_size as nat),
    )
}

/// Whether every step of a sort-based MSM did what it is for that is not looked at on the way, where
/// one kernel adds up all buckets.
pub open spec fn ran_unwatched<G: Group>(
    run: SortedRun<G::Point>,
    act: spec_fn(int, G::Point) -> G::Point,
    bases: Seq<G::Point>,
    scalars: Seq<nat>,
    p: SortedMsmParams,
) -> bool {
    &&& sorted(run, digits_of(scalars, p.window_size as nat), p)
    &&& added_up::<G>(run, act, bases)
    &&& reduced::<G>(run, p)
    &&& combined::<G>(run, p)
    &&& run.result == crate::group::sum::<G>(
        weighted::<G>(run.windows, p.window_size as nat),
    )
}

/// The sum of the multiples of the bases.
pub open spec fn multiples<G: Group>(
    act: spec_fn(int, G::Point) -> G::Point,
    bases: Seq<G::Point>,
    scalars: Seq<nat>,
) -> G::Point {
    crate::group::sum::<G>(Seq::new(bases.len(), |j: int| act(scalars[j] as int, bases[j])))
}

/// What base `b` adds to bucket `k` of window `w`.
spec fn selected<G: Group>(
    act: spec_fn(int, G::Point) -> G::Point,
    bases: Seq<G::Point>,
    digits: spec_fn(int, int) -> int,
    w: int,
    k: int,
    b: int,
) -> G::Point {
    if digits(b, w) == k + 1 {
        bases[b]
    } else if digits(b, w) == -(k + 1) {
        act(-1, bases[b])
    } else {
        G::identity()
    }
}

spec fn selection<G: Group>(
    act: spec_fn(int, G::Point) -> G::Point,
    bases: Seq<G::Point>,
    digits: spec_fn(int, int) -> int,
    w: int,
    k: int,
    n: nat,
) -> Seq<G::Point> {
    Seq::new(n, |b: int| selected::<G>(act, bases, digits, w, k, b))
}

/// What pairs add to their bucket is in the group.
pub proof fn entry_points_in<G: Group>(
    c: Set<G::Point>,
    act: spec_fn(int, G::Point) -> G::Point,
    bases: Seq<G::Point>,
    s: Seq<Entry>,
)
    requires
        crate::group::abelian::<G>(c),
        crate::single_multiexp::integer_action::<G>(c, act),
        crate::group::all_in(c, bases),
        forall|i: int| 0 <= i < s.len() ==> 0 <= (#[trigger] s[i]).base < bases.len(),
    ensures
        crate::group::all_in(c, entry_points::<G>(act, bases, s)),
        c.contains(crate::group::sum::<G>(entry_points::<G>(act, bases, s))),
{
    let t = entry_points::<G>(act, bases, s);
    assert forall|i: int| 0 <= i < t.len() implies c.contains(#[trigger] t[i]) by {
        assert(c.contains(bases[s[i].base]));
        assert(t[i] == entry_point::<G>(act, bases, s[i]));
    }
    crate::group::add_all_in::<G>(c, G::identity(), t);
}

/// A bucket adds up to what each base adds to it, whatever the order of its pairs.
proof fn bucket_is_selection<G: Group>(
    c: Set<G::Point>,
    act: spec_fn(int, G::Point) -> G::Point,
    bases: Seq<G::Point>,
    digits: spec_fn(int, int) -> int,
    w: int,
    k: int,
    n: nat,
    s: Seq<Entry>,
)
    requires
        crate::group::abelian::<G>(c),
        crate::single_multiexp::integer_action::<G>(c, act),
        crate::group::all_in(c, bases),
        n <= bases.len(),
        k >= 0,
        lists(s, digits, n, w, k),
    ensures
        crate::group::sum::<G>(entry_points::<G>(act, bases, s)) == crate::group::sum::<G>(
            selection::<G>(act, bases, digits, w, k, n),
        ),
    decreases n,
{
    let all = selection::<G>(act, bases, digits, w, k, n);
    let t = entry_points::<G>(act, bases, s);
    entry_points_in::<G>(c, act, bases, s);
    if n == 0 {
        if s.len() > 0 {
            assert(0 <= s[0].base < n);
        }
        assert(t =~= Seq::empty());
        assert(all =~= Seq::empty());
    } else {
        let m = (n - 1) as nat;
        let d = digits(n - 1, w);
        assert(all.drop_last() =~= selection::<G>(act, bases, digits, w, k, m));
        if d == k + 1 || d == -(k + 1) {
            let i = choose|i: int| 0 <= i < s.len() && (#[trigger] s[i]).base == n - 1;
            let r = s.remove(i);
            assert forall|j: int| 0 <= j < r.len() implies r[j] == (if j < i {
                s[j]
            } else {
                s[j + 1]
            }) by {}
            assert forall|b: int|
                0 <= b < m && (#[trigger] digits(b, w) == k + 1 || digits(b, w) == -(k + 1)) implies exists|
                j: int,
            | 0 <= j < r.len() && (#[trigger] r[j]).base == b by {
                let j = choose|j: int| 0 <= j < s.len() && (#[trigger] s[j]).base == b;
                if j < i {
                    assert(r[j].base == b);
                } else {
                    assert(r[j - 1].base == b);
                }
            }
            assert(lists(r, digits, m, w, k));
            bucket_is_selection::<G>(c, act, bases, digits, w, k, m, r);
            crate::group::sum_remove::<G>(c, t, i);
            assert(t.remove(i) =~= entry_points::<G>(act, bases, r));
            assert(t[i] == entry_point::<G>(act, bases, s[i]));
            assert(digits(s[i].base, w) == d);
        } else {
            assert forall|j: int| 0 <= j < s.len() implies 0 <= (#[trigger] s[j]).base < m by {
                if s[j].base == n - 1 {
                    assert(digits(s[j].base, w) == d);
                }
            }
            assert(lists(s, digits, m, w, k));
            bucket_is_selection::<G>(c, act, bases, digits, w, k, m, s);
            let a = crate::group::sum::<G>(t);
            assert(G::plus(a, G::identity()) == G::plus(G::identity(), a));
        }
    }
}

/// The first `m` chunks of a bucket hold its first points.
pub proof fn chunks_add_up<G: Group>(
    c: Set<G::Point>,
    act: spec_fn(int, G::Point) -> G::Point,
    bases: Seq<G::Point>,
    members: Seq<Entry>,
    partials: Seq<G::Point>,
    first: nat,
    bucket: u32,
    count: u32,
    m: nat,
)
    requires
        crate::group::abelian::<G>(c),
        crate::single_multiexp::integer_action::<G>(c, act),
        crate::group::all_in(c, bases),
        forall|i: int| 0 <= i < members.len() ==> 0 <= (#[trigger] members[i]).base < bases.len(),
        members.len() == count,
        m <= crate::dispatch::num_chunks(count),
        first + m <= partials.len(),
        forall|j: int|
            0 <= j < m ==> #[trigger] partials[first + j] == crate::group::sum::<G>(
                entry_points::<G>(
                    act,
                    bases,
                    members.subrange(
                        j * CHUNK_SIZE,
                        j * CHUNK_SIZE + crate::dispatch::bucket_chunks(bucket, count)[j].count,
                    ),
                ),
            ),
    ensures
        crate::group::sum::<G>(partials.subrange(first as int, (first + m) as int)) == crate::group::sum::<
            G,
        >(
            entry_points::<G>(
                act,
                bases,
                members.take(crate::arith::min_of(m * CHUNK_SIZE, count as int)),
            ),
        ),
    decreases m,
{
    let mine = partials.subrange(first as int, (first + m) as int);
    crate::arith::ceil_div_least(count as int, CHUNK_SIZE as int);
    if m == 0 {
        assert(mine =~= Seq::empty());
        assert(entry_points::<G>(act, bases, members.take(0)) =~= Seq::empty());
    } else {
        let j = m - 1;
        chunks_add_up::<G>(
            c,
            act,
            bases,
            members,
            partials,
            first,
            bucket,
            count,
            (m - 1) as nat,
        );
        assert(mine.drop_last() =~= partials.subrange(first as int, first + j));
        assert(mine.last() == partials[first + j]);
        let lo = j * CHUNK_SIZE;
        let hi = crate::arith::min_of(m * CHUNK_SIZE, count as int);
        let ch = crate::dispatch::bucket_chunks(bucket, count)[j];
        assert(lo + ch.count == hi);
        let low = members.take(lo);
        let high = members.subrange(lo, hi);
        entry_points_in::<G>(c, act, bases, low);
        entry_points_in::<G>(c, act, bases, high);
        crate::group::sum_concat::<G>(
            c,
            entry_points::<G>(act, bases, low),
            entry_points::<G>(act, bases, high),
        );
        assert(entry_points::<G>(act, bases, members.take(hi)) =~= entry_points::<G>(
            act,
            bases,
            low,
        ) + entry_points::<G>(act, bases, high));
    }
}

/// Whichever kernels add up the buckets, each bucket is the sum of its pairs.
proof fn buckets_are_sums<G: Group>(
    c: Set<G::Point>,
    run: SortedRun<G::Point>,
    act: spec_fn(int, G::Point) -> G::Point,
    bases: Seq<G::Point>,
    b: int,
)
    requires
        crate::group::abelian::<G>(c),
        crate::single_multiexp::integer_action::<G>(c, act),
        crate::group::all_in(c, bases),
        counted(run),
        accumulated::<G>(run, act, bases),
        0 <= b < run.members.len(),
        forall|i: int|
            0 <= i < run.members[b].len() ==> 0 <= (#[trigger] run.members[b][i]).base < bases.len(),
    ensures
        run.buckets[b] == crate::group::sum::<G>(
            entry_points::<G>(act, bases, run.members[b]),
        ),
{
    let n = run.num_nonempty;
    if forall|t: int| 0 <= t < n ==> #[trigger] run.ids[t] != b {
        assert(run.members[b].len() == 0);
        assert(entry_points::<G>(act, bases, run.members[b]) =~= Seq::empty());
    } else {
        let t = choose|t: int| 0 <= t < n && #[trigger] run.ids[t] == b;
        let chunks = crate::dispatch::all_chunks(run.counts, run.ids, n);
        if chunks.len() != n {
            let count = run.counts[b];
            let bucket = run.ids[t];
            let first = crate::dispatch::all_chunks(run.counts, run.ids, t as nat).len();
            let mine = crate::dispatch::bucket_chunks(bucket, count);
            crate::dispatch::reduce_table_entry(run.counts, run.ids, n, t as nat);
            crate::dispatch::chunks_of_listed(run.counts, run.ids, n, t as nat);
            crate::arith::ceil_div_least(count as int, CHUNK_SIZE as int);
            assert forall|j: int| 0 <= j < mine.len() implies #[trigger] run.partials[first + j]
                == crate::group::sum::<G>(
                entry_points::<G>(
                    act,
                    bases,
                    run.members[b].subrange(j * CHUNK_SIZE, j * CHUNK_SIZE + mine[j].count),
                ),
            ) by {
                assert(chunks[first + j] == mine[j]);
                crate::dispatch::dispatch_table_entry(chunks, first + j);
            }
            chunks_add_up::<G>(
                c,
                act,
                bases,
                run.members[b],
                run.partials,
                first,
                bucket,
                count,
                mine.len(),
            );
            assert(run.members[b].take(count as int) =~= run.members[b]);
        }
    }
}

/// The buckets of window `w`, each multiplied by the digit that it stands for.
spec fn bucket_multiples<G: Group>(
    buckets: Seq<G::Point>,
    p: SortedMsmParams,
    w: int,
    n: nat,
) -> Seq<G::Point> {
    Seq::new(
        n,
        |k: int| crate::group::times::<G>((k + 1) as nat, buckets[bucket_index(p, w, k)]),
    )
}

/// What a chunk adds to its window is the sum of its buckets, each multiplied by the digit that it
/// stands for.
proof fn share_is_multiples<G: Group>(c: Set<G::Point>, s: Seq<G::Point>, below: nat)
    requires
        crate::group::abelian::<G>(c),
        crate::group::all_in(c, s),
    ensures
        G::plus(
            crate::group::sum::<G>(by_position::<G>(s, 1)),
            crate::group::times::<G>(below, crate::group::sum::<G>(s)),
        ) == crate::group::sum::<G>(by_position::<G>(s, below + 1)),
        crate::group::all_in(c, by_position::<G>(s, below + 1)),
{
    let f = |l: int| crate::group::times::<G>((1 + l) as nat, s[l]);
    let g = |l: int| crate::group::times::<G>(below, s[l]);
    assert forall|l: int| 0 <= l < s.len() implies c.contains(#[trigger] f(l)) by {
        assert(c.contains(s[l]));
        crate::group::times_in::<G>(c, (1 + l) as nat, s[l]);
    }
    assert forall|l: int| 0 <= l < s.len() implies c.contains(#[trigger] g(l)) by {
        assert(c.contains(s[l]));
        crate::group::times_in::<G>(c, below, s[l]);
    }
    crate::group::sum_pairwise::<G>(c, f, g, s.len());
    crate::group::times_sum::<G>(c, below, s);
    assert(s.map_values(|q: G::Point| crate::group::times::<G>(below, q)) =~= Seq::new(s.len(), g));
    assert(by_position::<G>(s, 1) =~= Seq::new(s.len(), f));
    let both = Seq::new(s.len(), |l: int| G::plus(f(l), g(l)));
    let at = by_position::<G>(s, below + 1);
    assert forall|l: int| 0 <= l < s.len() implies both[l] == at[l] && c.contains(
        #[trigger] at[l],
    ) by {
        assert(c.contains(s[l]));
        crate::group::times_plus::<G>(c, (1 + l) as nat, below, s[l]);
        crate::group::times_in::<G>(c, (below + 1 + l) as nat, s[l]);
        assert((1 + l) as nat + below == (below + 1 + l) as nat);
    }
    assert(both =~= at);
}

/// The first `m` chunks of a window make up its first buckets.
proof fn chunks_make_window<G: Group>(
    c: Set<G::Point>,
    run: SortedRun<G::Point>,
    p: SortedMsmParams,
    w: int,
    m: nat,
)
    requires
        crate::group::abelian::<G>(c),
        p.fits(),
        crate::group::all_in(c, run.buckets),
        run.buckets.len() == p.total_buckets(),
        reduced::<G>(run, p),
        0 <= w < p.num_windows,
        m <= p.chunks_per_window(),
    ensures
        ({
            let n = crate::arith::min_of(
                m * REDUCTION_CHUNK_SIZE,
                p.buckets_per_window as int,
            ) as nat;
            &&& crate::group::sum::<G>(Seq::new(m, |i: int| chunk_share::<G>(run, p, w, i)))
                == crate::group::sum::<G>(bucket_multiples::<G>(run.buckets, p, w, n))
            &&& crate::group::all_in(c, bucket_multiples::<G>(run.buckets, p, w, n))
        }),
    decreases m,
{
    let shares = Seq::new(m, |i: int| chunk_share::<G>(run, p, w, i));
    let size = REDUCTION_CHUNK_SIZE as int;
    let b = p.buckets_per_window as int;
    let n = crate::arith::min_of(m * REDUCTION_CHUNK_SIZE, b) as nat;
    let all = bucket_multiples::<G>(run.buckets, p, w, n);
    let nw = p.num_windows as int;
    p.bounds();
    crate::arith::ceil_div_least(b, size);
    assert forall|k: int| 0 <= k < b implies 0 <= #[trigger] bucket_index(p, w, k)
        < run.buckets.len() by {
        assert(0 <= w * b && w * b + k < nw * b) by (nonlinear_arith)
            requires
                0 <= w < nw,
                0 <= k < b,
        ;
    }
    assert forall|k: int| 0 <= k < all.len() implies c.contains(#[trigger] all[k]) by {
        assert(c.contains(run.buckets[bucket_index(p, w, k)]));
        crate::group::times_in::<G>(
            c,
            (k + 1) as nat,
            run.buckets[bucket_index(p, w, k)],
        );
    }
    if m == 0 {
        assert(shares =~= Seq::empty());
        assert(all =~= Seq::empty());
    } else {
        let i = m - 1;
        chunks_make_window::<G>(c, run, p, w, (m - 1) as nat);
        assert(shares.drop_last() =~= Seq::new(
            (m - 1) as nat,
            |j: int| chunk_share::<G>(run, p, w, j),
        ));
        let mine = chunk_buckets(run.buckets, p, w, i);
        let low = (i * size) as nat;
        assert(low + mine.len() == n);
        assert forall|l: int| 0 <= l < mine.len() implies c.contains(#[trigger] mine[l]) by {
            assert(c.contains(run.buckets[bucket_index(p, w, low + l)]));
        }
        share_is_multiples::<G>(c, mine, low);
        assert(shares.last() == chunk_share::<G>(run, p, w, i));
        let head = bucket_multiples::<G>(run.buckets, p, w, low);
        let tail = by_position::<G>(mine, low + 1);
        assert(crate::arith::min_of(i * REDUCTION_CHUNK_SIZE, b) == low);
        crate::group::sum_concat::<G>(c, head, tail);
        assert forall|k: int| 0 <= k < n implies all[k] == (head + tail)[k] by {
            if k >= low {
                assert(mine[k - low] == run.buckets[bucket_index(p, w, k)]);
                assert((low + 1 + (k - low)) as nat == (k + 1) as nat);
            }
        }
        assert(all =~= head + tail);
    }
}

proof fn times_act<G: Group>(
    c: Set<G::Point>,
    act: spec_fn(int, G::Point) -> G::Point,
    m: nat,
    k: int,
    q: G::Point,
)
    requires
        crate::single_multiexp::integer_action::<G>(c, act),
        c.contains(q),
    ensures
        crate::group::times::<G>(m, act(k, q)) == act(m * k, q),
    decreases m,
{
    if m == 0 {
        assert(m * k == 0) by (nonlinear_arith)
            requires
                m == 0,
        ;
    } else {
        let j = (m - 1) as nat;
        times_act::<G>(c, act, j, k, q);
        assert(j * k + k == m * k) by (nonlinear_arith)
            requires
                m == j + 1,
        ;
        assert(G::plus(act(j * k, q), act(k, q)) == act(j * k + k, q));
    }
}

/// The buckets of a window multiply a base by its digit.
proof fn buckets_give_digit<G: Group>(
    c: Set<G::Point>,
    act: spec_fn(int, G::Point) -> G::Point,
    bases: Seq<G::Point>,
    digits: spec_fn(int, int) -> int,
    w: int,
    b: int,
    n: nat,
)
    requires
        crate::group::abelian::<G>(c),
        crate::single_multiexp::integer_action::<G>(c, act),
        crate::group::all_in(c, bases),
        0 <= b < bases.len(),
        -n <= digits(b, w) <= n,
    ensures
        crate::group::sum::<G>(
            Seq::new(
                n,
                |k: int|
                    crate::group::times::<G>(
                        (k + 1) as nat,
                        selected::<G>(act, bases, digits, w, k, b),
                    ),
            ),
        ) == act(digits(b, w), bases[b]),
{
    let s = Seq::new(
        n,
        |k: int|
            crate::group::times::<G>(
                (k + 1) as nat,
                selected::<G>(act, bases, digits, w, k, b),
            ),
    );
    let d = digits(b, w);
    let q = bases[b];
    assert(c.contains(q));
    let at = if d > 0 {
        d - 1
    } else {
        -d - 1
    };
    assert forall|k: int| 0 <= k < n && k != at implies #[trigger] s[k] == G::identity() by {
        crate::group::times_identity::<G>(c, (k + 1) as nat);
    }
    if d == 0 {
        crate::group::sum_of_identities::<G>(c, s);
        assert(act(0, q) == G::identity());
    } else {
        let m = (at + 1) as nat;
        if d > 0 {
            assert(act(1, q) == q);
            times_act::<G>(c, act, m, 1, q);
            assert(m * 1 == d);
        } else {
            times_act::<G>(c, act, m, -1, q);
            assert(m * -1 == d);
        }
        assert(s[at] == act(d, q));
        crate::group::sum_single::<G>(c, s, at);
    }
}

/// The bucket with a given index.
pub proof fn bucket_at(p: SortedMsmParams, i: int)
    requires
        p.fits(),
        0 <= i < p.total_buckets(),
    ensures
        ({
            let w = i / (p.buckets_per_window as int);
            let k = i % (p.buckets_per_window as int);
            &&& 0 <= w < p.num_windows
            &&& 0 <= k < p.buckets_per_window
            &&& bucket_index(p, w, k) == i
        }),
{
    let size = p.buckets_per_window as int;
    let nw = p.num_windows as int;
    p.bounds();
    let w = i / size;
    let k = i % size;
    vstd::arithmetic::div_mod::lemma_fundamental_div_mod(i, size);
    vstd::arithmetic::div_mod::lemma_mod_bound(i, size);
    assert(0 <= w < nw) by (nonlinear_arith)
        requires
            i == size * w + k,
            0 <= k < size,
            0 <= i < nw * size,
    ;
    assert(w * size == size * w) by (nonlinear_arith);
}

/// A window adds up the multiples of the bases by their digits.
pub proof fn window_is_digits<G: Group>(
    c: Set<G::Point>,
    run: SortedRun<G::Point>,
    act: spec_fn(int, G::Point) -> G::Point,
    bases: Seq<G::Point>,
    digits: spec_fn(int, int) -> int,
    p: SortedMsmParams,
    w: int,
)
    requires
        crate::group::abelian::<G>(c),
        crate::single_multiexp::integer_action::<G>(c, act),
        crate::group::all_in(c, bases),
        p.fits(),
        p.n_bases == bases.len(),
        sorted(run, digits, p),
        added_up::<G>(run, act, bases),
        reduced::<G>(run, p),
        combined::<G>(run, p),
        0 <= w < p.num_windows,
        forall|b: int, v: int|
            -p.buckets_per_window <= #[trigger] digits(b, v) <= p.buckets_per_window,
    ensures
        run.windows[w] == crate::group::sum::<G>(
            crate::single_multiexp::digit_terms::<G>(act, bases, digits, w, bases.len()),
        ),
{
    let n = bases.len();
    let size = p.buckets_per_window as nat;
    let sizei = size as int;
    let nw = p.num_windows as int;
    p.bounds();
    assert forall|i: int| 0 <= i < run.buckets.len() implies c.contains(
        #[trigger] run.buckets[i],
    ) by {
        let v = i / sizei;
        let k = i % sizei;
        bucket_at(p, i);
        assert(lists(run.members[bucket_index(p, v, k)], digits, n, v, k));
        entry_points_in::<G>(c, act, bases, run.members[i]);
    }
    chunks_make_window::<G>(c, run, p, w, p.chunks_per_window());
    crate::arith::ceil_div_least(sizei, REDUCTION_CHUNK_SIZE as int);
    let all = bucket_multiples::<G>(run.buckets, p, w, size);
    let f = |k: int, b: int|
        crate::group::times::<G>(
            (k + 1) as nat,
            selected::<G>(act, bases, digits, w, k, b),
        );
    assert forall|k: int, b: int| 0 <= k < size && 0 <= b < n implies c.contains(
        #[trigger] f(k, b),
    ) by {
        assert(c.contains(bases[b]));
        crate::group::times_in::<G>(
            c,
            (k + 1) as nat,
            selected::<G>(act, bases, digits, w, k, b),
        );
    }
    crate::group::sum_exchange::<G>(c, f, size, n);
    let by_row = Seq::new(size, |k: int| crate::group::sum::<G>(crate::group::row(f, k, n)));
    assert forall|k: int| 0 <= k < size implies all[k] == by_row[k] by {
        let i = bucket_index(p, w, k);
        assert(0 <= w * sizei && w * sizei + k < nw * sizei) by (nonlinear_arith)
            requires
                0 <= w < nw,
                0 <= k < sizei,
        ;
        let members = run.members[bucket_index(p, w, k)];
        assert(lists(members, digits, n, w, k));
        bucket_is_selection::<G>(c, act, bases, digits, w, k, n, members);
        let sel = selection::<G>(act, bases, digits, w, k, n);
        assert forall|b: int| 0 <= b < n implies c.contains(#[trigger] sel[b]) by {
            assert(c.contains(bases[b]));
        }
        crate::group::times_sum::<G>(c, (k + 1) as nat, sel);
        assert(sel.map_values(|q: G::Point| crate::group::times::<G>((k + 1) as nat, q))
            =~= crate::group::row(f, k, n));
    }
    assert(all =~= by_row);
    let by_column = Seq::new(n, |b: int| crate::group::sum::<G>(crate::group::column(f, b, size)));
    let terms = crate::single_multiexp::digit_terms::<G>(act, bases, digits, w, n);
    assert forall|b: int| 0 <= b < n implies by_column[b] == terms[b] by {
        assert(digits(b, w) <= size);
        buckets_give_digit::<G>(c, act, bases, digits, w, b, size);
        assert(crate::group::column(f, b, size) =~= Seq::new(
            size,
            |k: int|
                crate::group::times::<G>(
                    (k + 1) as nat,
                    selected::<G>(act, bases, digits, w, k, b),
                ),
        ));
    }
    assert(by_column =~= terms);
}

/// The digits of a scalar among those of all scalars.
pub proof fn digits_of_scalar(scalars: Seq<nat>, j: int, w: nat, n: nat)
    ensures
        crate::single_multiexp::digits_number(digits_of(scalars, w), j, w, n)
            == crate::single_multiexp::digits_number(
            crate::booth::signed_digits(scalars[j], w),
            0,
            w,
            n,
        ),
    decreases n,
{
    if n > 0 {
        digits_of_scalar(scalars, j, w, (n - 1) as nat);
        assert(digits_of(scalars, w)(j, n - 1) == crate::booth::signed_digits(scalars[j], w)(
            0,
            n - 1,
        ));
    }
}

/// The result of a sort-based MSM that is not looked at on the way is the sum of the multiples of the
/// bases, provided that every step on the device does what it is for. The bases may be in any order
/// within their buckets.
pub proof fn unwatched_msm_is_sum_of_multiples<G: Group>(
    c: Set<G::Point>,
    act: spec_fn(int, G::Point) -> G::Point,
    bases: Seq<G::Point>,
    scalars: Seq<nat>,
    p: SortedMsmParams,
    run: SortedRun<G::Point>,
)
    requires
        crate::group::abelian::<G>(c),
        crate::single_multiexp::integer_action::<G>(c, act),
        crate::group::all_in(c, bases),
        p.fits(),
        p.n_bases == bases.len(),
        scalars.len() == bases.len(),
        forall|j: int|
            0 <= j < scalars.len() ==> #[trigger] scalars[j] < vstd::arithmetic::power2::pow2(
                p.effective_bits as nat,
            ),
        ran_unwatched::<G>(run, act, bases, scalars, p),
    ensures
        run.result == multiples::<G>(act, bases, scalars),
{
    let ws = p.window_size as nat;
    let nw = p.num_windows as nat;
    let n = bases.len();
    let digits = digits_of(scalars, ws);
    assert forall|b: int, v: int|
        -p.buckets_per_window <= #[trigger] digits(b, v) <= p.buckets_per_window by {
        crate::booth::digit_bounds(scalars[b], ws, v as nat);
    }
    let a = weighted::<G>(run.windows, ws);
    let b = crate::single_multiexp::weighted_digits::<G>(act, bases, digits, ws, nw, n);
    assert forall|w: int| 0 <= w < nw implies a[w] == b[w] by {
        window_is_digits::<G>(c, run, act, bases, digits, p, w);
    }
    assert(a =~= b);
    crate::single_multiexp::windows_make_multiples::<G>(c, act, bases, digits, ws, nw, n);
    let terms = crate::single_multiexp::number_terms::<G>(act, bases, digits, ws, nw, n);
    let want = Seq::new(n, |j: int| act(scalars[j] as int, bases[j]));
    assert forall|j: int| 0 <= j < n implies terms[j] == want[j] by {
        digits_of_scalar(scalars, j, ws, nw);
        assert(scalars[j] < vstd::arithmetic::power2::pow2(p.effective_bits as nat));
        crate::booth::signed_digits_fit(scalars[j], p.effective_bits as nat, ws);
    }
    assert(terms =~= want);
}

/// The result of a sort-based MSM is the sum of the multiples of the bases, provided that every step
/// on the device does what it is for. The bases may be in any order within their buckets, and
/// buckets may be split into chunks or not.
pub proof fn sorted_msm_is_sum_of_multiples<G: Group>(
    c: Set<G::Point>,
    act: spec_fn(int, G::Point) -> G::Point,
    bases: Seq<G::Point>,
    scalars: Seq<nat>,
    p: SortedMsmParams,
    run: SortedRun<G::Point>,
)
    requires
        crate::group::abelian::<G>(c),
        crate::single_multiexp::integer_action::<G>(c, act),
        crate::group::all_in(c, bases),
        p.fits(),
        p.n_bases == bases.len(),
        scalars.len() == bases.len(),
        forall|j: int|
            0 <= j < scalars.len() ==> #[trigger] scalars[j] < vstd::arithmetic::power2::pow2(
                p.effective_bits as nat,
            ),
        ran::<G>(run, act, bases, scalars, p),
    ensures
        run.result == multiples::<G>(act, bases, scalars),
{
    let digits = digits_of(scalars, p.window_size as nat);
    assert forall|b: int| 0 <= b < run.buckets.len() implies #[trigger] run.buckets[b]
        == crate::group::sum::<G>(entry_points::<G>(act, bases, run.members[b])) by {
        let size = p.buckets_per_window as int;
        bucket_at(p, b);
        assert(lists(
            run.members[bucket_index(p, b / size, b % size)],
            digits,
            p.n_bases as nat,
            b / size,
            b % size,
        ));
        buckets_are_sums::<G>(c, run, act, bases, b);
    }
    unwatched_msm_is_sum_of_multiples::<G>(c, act, bases, scalars, p, run);
}

/// A sort-based multiexponentiation and one with buckets for every thread give the same point, on
/// the same bases and exponents: both are the sum of the multiples. What the devices hand back is a
/// premise, for the one as in [`sorted_msm_is_sum_of_multiples`], for the other that the threads of
/// each window together add up the digit multiples of the bases.
pub proof fn sorted_agrees_with_multiexp<G: Group>(
    c: Set<G::Point>,
    act: spec_fn(int, G::Point) -> G::Point,
    bases: Seq<G::Point>,
    exponents: Seq<[u64; 4]>,
    work_units: nat,
    p: SortedMsmParams,
    run: SortedRun<G::Point>,
    s: MultiexpShape,
    results: Seq<G::Point>,
)
    requires
        crate::group::abelian::<G>(c),
        crate::single_multiexp::integer_action::<G>(c, act),
        crate::group::all_in(c, bases),
        crate::group::all_in(c, results),
        exponents.len() == bases.len(),
        bases.len() > 0,
        p.total_pairs() <= usize::MAX,
        crate::sorted_multiexp::splits_sorted(p, bases.len(), work_units, exponents),
        crate::single_multiexp::splits(s, bases.len(), work_units, exponents),
        results.len() == s.work_units,
        ran::<G>(run, act, bases, crate::single_multiexp::exponent_values(exponents), p),
        forall|i: int|
            0 <= i < s.num_windows ==> #[trigger] crate::group::sum::<G>(
                crate::single_multiexp::window_points(results, s, i as nat),
            ) == crate::group::sum::<G>(
                crate::single_multiexp::digit_terms::<G>(
                    act,
                    bases,
                    digits_of(
                        crate::single_multiexp::exponent_values(exponents),
                        s.window_size as nat,
                    ),
                    i,
                    bases.len(),
                ),
            ),
    ensures
        run.result == multiples::<G>(
            act,
            bases,
            crate::single_multiexp::exponent_values(exponents),
        ),
        crate::single_multiexp::horner::<G>(results, s, 0) == run.result,
{
    let values = crate::single_multiexp::exponent_values(exponents);
    let ws = s.window_size as nat;
    crate::multiexp::max_bits_tight(values);
    sorted_msm_is_sum_of_multiples::<G>(c, act, bases, values, p, run);
    let numbers = Seq::new(values.len(), |j: int| values[j] as int);
    assert forall|j: int| 0 <= j < bases.len() implies #[trigger] numbers[j]
        == crate::single_multiexp::digits_number(
        digits_of(values, ws),
        j,
        ws,
        s.num_windows as nat,
    ) by {
        digits_of_scalar(values, j, ws, s.num_windows as nat);
        assert(values[j] < vstd::arithmetic::power2::pow2(p.effective_bits as nat));
        crate::booth::signed_digits_fit(values[j], s.effective_bits as nat, ws);
    }
    crate::single_multiexp::multiexp_is_sum_of_multiples::<G>(
        c,
        act,
        bases,
        numbers,
        digits_of(values, ws),
        results,
        s,
    );
    assert(Seq::new(bases.len(), |j: int| act(numbers[j], bases[j])) =~= Seq::new(
        bases.len(),
        |j: int| act(values[j] as int, bases[j]),
    ));
}

} // verus!
