//! What the steps of a sort-based MSM leave on the device.
//!
//! The steps are run on a device whose kernels do what they are for, as [`crate::msm_device`] says
//! it. From the bases and the scalars that are there at the start they make the sum of the multiples.

use vstd::prelude::*;

use crate::field::PrimeField;
use crate::group::Group;
use crate::msm_device::{MsmDevice, NEGATIVE, NO_BUCKET};
use crate::multiexp::{SortedMsmParams, LOCAL_WORK_SIZE, REDUCTION_CHUNK_SIZE};
use crate::sorted_msm::{
    BUCKET_RESULTS, CHUNK_SBP, CHUNK_SUM, COUNTS, DIGITS, FINAL_RESULT, KEYS,
    NONEMPTY_IDS, NUM_NONEMPTY, OFFSETS, SCATTER_OFFSETS, SORTED, VALUES, WINDOW_RESULTS,
};
use crate::sorted_sum::{Entry, SortedRun};

verus! {

/// Whether the numbers of an MSM are 32 bit words, as the kernels are told them, and the bases can
/// be told from their negatives.
pub open spec fn words_fit(p: SortedMsmParams) -> bool {
    &&& p.fits()
    &&& p.total_pairs() <= u32::MAX
    &&& p.n_bases <= NEGATIVE
}

/// The digit of pair `i`: that of base `i / num_windows` in window `i % num_windows`.
pub open spec fn digit_at(scalars: Seq<nat>, p: SortedMsmParams, i: int) -> int {
    crate::booth::signed_digit(
        scalars[i / (p.num_windows as int)],
        p.window_size as nat,
        (i % (p.num_windows as int)) as nat,
    )
}

/// Whether the digits are those of the scalars.
pub open spec fn digits_done(digits: Seq<int>, scalars: Seq<nat>, p: SortedMsmParams) -> bool {
    &&& digits.len() >= p.total_pairs()
    &&& forall|i: int|
        0 <= i < p.total_pairs() ==> #[trigger] digits[i] == digit_at(scalars, p, i)
}

/// The bucket of pair `i`.
pub open spec fn key_at(scalars: Seq<nat>, p: SortedMsmParams, i: int) -> int {
    let x = digit_at(scalars, p, i);
    let w = i % (p.num_windows as int);
    if x == 0 {
        NO_BUCKET as int
    } else if x > 0 {
        w * p.buckets_per_window + x - 1
    } else {
        w * p.buckets_per_window - x - 1
    }
}

/// The base of pair `i`, and its sign.
pub open spec fn value_at(scalars: Seq<nat>, p: SortedMsmParams, i: int) -> int {
    let b = i / (p.num_windows as int);
    if digit_at(scalars, p, i) < 0 {
        b + NEGATIVE
    } else {
        b
    }
}

/// Whether the pairs are those of the scalars.
pub open spec fn pairs_done(
    keys: Seq<u32>,
    values: Seq<u32>,
    scalars: Seq<nat>,
    p: SortedMsmParams,
) -> bool {
    &&& keys.len() >= p.total_pairs()
    &&& values.len() >= p.total_pairs()
    &&& forall|i: int|
        0 <= i < p.total_pairs() ==> #[trigger] keys[i] == key_at(scalars, p, i) && (digit_at(
            scalars,
            p,
            i,
        ) != 0 ==> values[i] == value_at(scalars, p, i))
}

/// Whether the pairs of each bucket have been counted.
pub open spec fn counts_done(counts: Seq<u32>, keys: Seq<u32>, p: SortedMsmParams) -> bool {
    &&& counts.len() >= p.total_buckets()
    &&& forall|b: int|
        0 <= b < p.total_buckets() ==> #[trigger] counts[b] == crate::msm_device::occurrences(
            keys,
            b,
            p.total_pairs(),
        )
}

/// Whether each bucket starts where the one before it ends.
pub open spec fn offsets_done(offsets: Seq<u32>, counts: Seq<u32>, p: SortedMsmParams) -> bool {
    &&& offsets.len() >= p.total_buckets()
    &&& forall|b: int|
        0 <= b < p.total_buckets() ==> #[trigger] offsets[b] == crate::msm_device::count_before(
            counts,
            b as nat,
        )
}

/// The pair that a value stands for.
pub open spec fn entry_of(v: u32) -> Entry {
    if v >= NEGATIVE {
        Entry { base: v - NEGATIVE, negative: true }
    } else {
        Entry { base: v as int, negative: false }
    }
}

/// The pairs of bucket `b`.
pub open spec fn members_of(
    sorted: Seq<u32>,
    offsets: Seq<u32>,
    counts: Seq<u32>,
    b: int,
) -> Seq<Entry> {
    Seq::new(counts[b] as nat, |r: int| entry_of(sorted[offsets[b] + r]))
}

/// Whether every pair with a digit other than zero is in the range of its bucket, once, and nothing
/// else is.
pub open spec fn sorted_done(
    sorted: Seq<u32>,
    offsets: Seq<u32>,
    counts: Seq<u32>,
    scalars: Seq<nat>,
    p: SortedMsmParams,
) -> bool {
    forall|w: int, k: int|
        0 <= w < p.num_windows && 0 <= k < p.buckets_per_window ==> crate::sorted_sum::lists(
            #[trigger] members_of(
                sorted,
                offsets,
                counts,
                crate::sorted_sum::bucket_index(p, w, k),
            ),
            crate::sorted_sum::digits_of(scalars, p.window_size as nat),
            p.n_bases as nat,
            w,
            k,
        )
}

spec fn occurrences_below(keys: Seq<u32>, m: nat, n: nat) -> nat
    decreases m,
{
    if m == 0 {
        0
    } else {
        occurrences_below(keys, (m - 1) as nat, n) + crate::msm_device::occurrences(
            keys,
            m - 1,
            n,
        )
    }
}

proof fn one_more_key(keys: Seq<u32>, m: nat, n: nat)
    requires
        n > 0,
    ensures
        occurrences_below(keys, m, n) == occurrences_below(keys, m, (n - 1) as nat) + (if keys[n - 1]
            < m {
            1nat
        } else {
            0
        }),
    decreases m,
{
    if m > 0 {
        one_more_key(keys, (m - 1) as nat, n);
    }
}

proof fn keys_are_few(keys: Seq<u32>, m: nat, n: nat)
    ensures
        occurrences_below(keys, m, n) <= n,
    decreases n,
{
    if n > 0 {
        one_more_key(keys, m, n);
        keys_are_few(keys, m, (n - 1) as nat);
    } else {
        no_keys(keys, m);
    }
}

proof fn no_keys(keys: Seq<u32>, m: nat)
    ensures
        occurrences_below(keys, m, 0) == 0,
    decreases m,
{
    if m > 0 {
        no_keys(keys, (m - 1) as nat);
    }
}

proof fn counts_are_occurrences(counts: Seq<u32>, keys: Seq<u32>, m: nat, n: nat)
    requires
        forall|b: int|
            0 <= b < m ==> #[trigger] counts[b] == crate::msm_device::occurrences(keys, b, n),
    ensures
        crate::msm_device::count_before(counts, m) == occurrences_below(keys, m, n),
        crate::msm_device::count_before(counts, m) <= n,
    decreases m,
{
    if m > 0 {
        counts_are_occurrences(counts, keys, (m - 1) as nat, n);
    }
    keys_are_few(keys, m, n);
}

/// The buckets together hold no more pairs than there are.
pub proof fn count_is_pairs(counts: Seq<u32>, keys: Seq<u32>, p: SortedMsmParams)
    requires
        counts_done(counts, keys, p),
    ensures
        crate::msm_device::count_before(counts, p.total_buckets()) <= p.total_pairs(),
{
    counts_are_occurrences(counts, keys, p.total_buckets(), p.total_pairs());
}

/// Only the first counts are added up.
pub proof fn count_of_first(counts: Seq<u32>, n: nat)
    requires
        n <= counts.len(),
    ensures
        crate::msm_device::count_before(counts.take(n as int), n)
            == crate::msm_device::count_before(counts, n),
{
    count_of_prefix(counts, n, n);
}

proof fn count_of_prefix(counts: Seq<u32>, n: nat, m: nat)
    requires
        m <= n <= counts.len(),
    ensures
        crate::msm_device::count_before(counts.take(n as int), m)
            == crate::msm_device::count_before(counts, m),
    decreases m,
{
    if m > 0 {
        count_of_prefix(counts, n, (m - 1) as nat);
    }
}

/// A bucket ends before a later one starts.
proof fn buckets_in_order(counts: Seq<u32>, a: nat, b: nat)
    requires
        a < b,
    ensures
        crate::msm_device::count_before(counts, a) + counts[a as int]
            <= crate::msm_device::count_before(counts, b),
    decreases b,
{
    if a < b - 1 {
        buckets_in_order(counts, a, (b - 1) as nat);
    }
}

proof fn occurrences_are_set(keys: Seq<u32>, b: int, n: nat)
    ensures
        Set::new(|i: int| 0 <= i < n && keys[i] == b).finite(),
        Set::new(|i: int| 0 <= i < n && keys[i] == b).len() == crate::msm_device::occurrences(
            keys,
            b,
            n,
        ),
    decreases n,
{
    let all = Set::new(|i: int| 0 <= i < n && keys[i] == b);
    if n == 0 {
        assert(all =~= Set::empty());
    } else {
        let less = Set::new(|i: int| 0 <= i < n - 1 && keys[i] == b);
        occurrences_are_set(keys, b, (n - 1) as nat);
        if keys[n - 1] == b {
            assert(all =~= less.insert(n - 1));
        } else {
            assert(all =~= less);
        }
    }
}

/// As many pairs as there are places, each at a place of its own, take all places.
proof fn all_places_taken(keys: Seq<u32>, b: int, n: nat, start: int, place: spec_fn(int) -> int, q: int)
    requires
        forall|i: int|
            0 <= i < n && keys[i] == b ==> start <= #[trigger] place(i) < start
                + crate::msm_device::occurrences(keys, b, n),
        forall|i: int, j: int|
            0 <= i < j < n && keys[i] == b && keys[j] == b ==> #[trigger] place(i)
                != #[trigger] place(j),
        start <= q < start + crate::msm_device::occurrences(keys, b, n),
    ensures
        exists|i: int| 0 <= i < n && keys[i] == b && #[trigger] place(i) == q,
{
    let k = crate::msm_device::occurrences(keys, b, n);
    let pairs = Set::new(|i: int| 0 <= i < n && keys[i] == b);
    occurrences_are_set(keys, b, n);
    let taken = pairs.map(place);
    let places = vstd::set_lib::set_int_range(start, start + k);
    vstd::set_lib::lemma_int_range(start, start + k);
    assert(vstd::relations::injective_on(place, pairs)) by {
        assert forall|i: int, j: int|
            pairs.contains(i) && pairs.contains(j) && #[trigger] place(i) == #[trigger] place(
                j,
            ) implies i == j by {
            if i < j {
            } else if j < i {
            }
        }
    }
    vstd::set_lib::lemma_map_size(pairs, taken, place);
    assert(taken.subset_of(places));
    vstd::set_lib::lemma_subset_equality(taken, places);
    assert(taken.contains(q));
    let i = choose|i: int| pairs.contains(i) && place(i) == q;
    assert(place(i) == q);
}

/// The digit of a pair is within the buckets of its window.
proof fn digit_in_window(scalars: Seq<nat>, p: SortedMsmParams, i: int)
    requires
        words_fit(p),
        0 <= i < p.total_pairs(),
    ensures
        0 <= i / (p.num_windows as int) < p.n_bases,
        0 <= i % (p.num_windows as int) < p.num_windows,
        (i / (p.num_windows as int)) * p.num_windows + i % (p.num_windows as int) == i,
        -p.buckets_per_window <= digit_at(scalars, p, i) <= p.buckets_per_window,
        digit_at(scalars, p, i) != 0 ==> 0 <= key_at(scalars, p, i) < p.total_buckets(),
        p.total_buckets() < NO_BUCKET,
{
    p.bounds();
    let nw = p.num_windows as int;
    let size = p.buckets_per_window as int;
    crate::multiexp_laws::flat_index(i, p.n_bases as int, nw);
    crate::booth::digit_bounds(scalars[i / nw], p.window_size as nat, (i % nw) as nat);
    let w = i % nw;
    let x = digit_at(scalars, p, i);
    let m = if x > 0 {
        x - 1
    } else {
        -x - 1
    };
    if x != 0 {
        assert(0 <= w * size + m < nw * size) by (nonlinear_arith)
            requires
                0 <= w < nw,
                0 <= m < size,
        ;
    }
}

/// A pair is in the bucket of its window and of the magnitude of its digit.
proof fn key_is_bucket(scalars: Seq<nat>, p: SortedMsmParams, i: int, w: int, k: int)
    requires
        words_fit(p),
        0 <= i < p.total_pairs(),
        0 <= w < p.num_windows,
        0 <= k < p.buckets_per_window,
    ensures
        key_at(scalars, p, i) == crate::sorted_sum::bucket_index(p, w, k) <==> i % (
        p.num_windows as int) == w && (digit_at(scalars, p, i) == k + 1 || digit_at(scalars, p, i)
            == -(k + 1)),
        0 <= crate::sorted_sum::bucket_index(p, w, k) < p.total_buckets(),
{
    digit_in_window(scalars, p, i);
    let size = p.buckets_per_window as int;
    let nw = p.num_windows as int;
    assert(0 <= w * size + k < nw * size) by (nonlinear_arith)
        requires
            0 <= w < nw,
            0 <= k < size,
    ;
    let x = digit_at(scalars, p, i);
    let v = i % nw;
    let m = if x > 0 {
        x - 1
    } else {
        -x - 1
    };
    vstd::arithmetic::div_mod::lemma_fundamental_div_mod_converse(w * size + k, size, w, k);
    if x != 0 {
        vstd::arithmetic::div_mod::lemma_fundamental_div_mod_converse(v * size + m, size, v, m);
    }
}

/// Where a place of a bucket got its value from.
proof fn place_has_source(
    keys: Seq<u32>,
    values: Seq<u32>,
    offsets: Seq<u32>,
    counts: Seq<u32>,
    sorted: Seq<u32>,
    scalars: Seq<nat>,
    p: SortedMsmParams,
    place: spec_fn(int) -> int,
    winner: spec_fn(int) -> int,
    b: int,
    q: int,
) -> (i: int)
    requires
        words_fit(p),
        pairs_done(keys, values, scalars, p),
        counts_done(counts, keys, p),
        offsets_done(offsets, counts, p),
        sorted.len() >= p.total_pairs(),
        crate::msm_device::scattered(
            keys,
            values,
            offsets,
            p.total_pairs(),
            sorted,
            place,
            winner,
        ),
        0 <= b < p.total_buckets(),
        offsets[b] <= q < offsets[b] + counts[b],
    ensures
        0 <= i < p.total_pairs(),
        keys[i] == b,
        place(i) == q,
        sorted[q] == values[i],
{
    let n = p.total_pairs();
    let tb = p.total_buckets();
    p.bounds();
    all_places_taken(keys, b, n, offsets[b] as int, place, q);
    let i = choose|i: int| 0 <= i < n && keys[i] == b && #[trigger] place(i) == q;
    counts_are_occurrences(counts, keys, tb, n);
    buckets_in_order(counts, b as nat, tb);
    let j = winner(q);
    assert(place(j) == q);
    digit_in_window(scalars, p, j);
    assert(keys[j] == key_at(scalars, p, j));
    let a = keys[j] as int;
    assert(0 <= a < tb);
    assert(counts[a] == crate::msm_device::occurrences(keys, a, n));
    assert(offsets[a] == crate::msm_device::count_before(counts, a as nat));
    assert(offsets[b] == crate::msm_device::count_before(counts, b as nat));
    if a < b {
        buckets_in_order(counts, a as nat, b as nat);
    } else if b < a {
        buckets_in_order(counts, b as nat, a as nat);
    }
    assert(a == b);
    if i < j {
        assert(place(i) != place(j));
    } else if j < i {
        assert(place(j) != place(i));
    }
    i
}

/// Sorting puts every pair with a digit other than zero into the range of its bucket, whatever the
/// order of the threads.
proof fn scatter_sorts(
    keys: Seq<u32>,
    values: Seq<u32>,
    offsets: Seq<u32>,
    counts: Seq<u32>,
    sorted: Seq<u32>,
    scalars: Seq<nat>,
    p: SortedMsmParams,
    place: spec_fn(int) -> int,
    winner: spec_fn(int) -> int,
)
    requires
        words_fit(p),
        pairs_done(keys, values, scalars, p),
        counts_done(counts, keys, p),
        offsets_done(offsets, counts, p),
        sorted.len() >= p.total_pairs(),
        crate::msm_device::scattered(
            keys,
            values,
            offsets,
            p.total_pairs(),
            sorted,
            place,
            winner,
        ),
    ensures
        sorted_done(sorted, offsets, counts, scalars, p),
{
    let n = p.n_bases as nat;
    let nw = p.num_windows as int;
    let ws = p.window_size as nat;
    let digits = crate::sorted_sum::digits_of(scalars, ws);
    p.bounds();
    assert forall|w: int, k: int|
        0 <= w < p.num_windows && 0 <= k < p.buckets_per_window implies crate::sorted_sum::lists(
        #[trigger] members_of(
            sorted,
            offsets,
            counts,
            crate::sorted_sum::bucket_index(p, w, k),
        ),
        digits,
        n,
        w,
        k,
    ) by {
        let b = crate::sorted_sum::bucket_index(p, w, k);
        key_is_bucket(scalars, p, 0, w, k);
        let s = members_of(sorted, offsets, counts, b);
        assert forall|r: int| 0 <= r < s.len() implies 0 <= (#[trigger] s[r]).base < n && digits(
            s[r].base,
            w,
        ) == (if s[r].negative {
            -(k + 1)
        } else {
            k + 1
        }) by {
            let i = place_has_source(
                keys,
                values,
                offsets,
                counts,
                sorted,
                scalars,
                p,
                place,
                winner,
                b,
                offsets[b] + r,
            );
            digit_in_window(scalars, p, i);
            key_is_bucket(scalars, p, i, w, k);
            assert(keys[i] == key_at(scalars, p, i));
            assert(digits(i / nw, w) == digit_at(scalars, p, i));
        }
        assert forall|r: int, t: int| 0 <= r < t < s.len() implies (#[trigger] s[r]).base != (
        #[trigger] s[t]).base by {
            let i = place_has_source(
                keys,
                values,
                offsets,
                counts,
                sorted,
                scalars,
                p,
                place,
                winner,
                b,
                offsets[b] + r,
            );
            let j = place_has_source(
                keys,
                values,
                offsets,
                counts,
                sorted,
                scalars,
                p,
                place,
                winner,
                b,
                offsets[b] + t,
            );
            digit_in_window(scalars, p, i);
            key_is_bucket(scalars, p, i, w, k);
            digit_in_window(scalars, p, j);
            key_is_bucket(scalars, p, j, w, k);
            assert(keys[i] == key_at(scalars, p, i));
            assert(keys[j] == key_at(scalars, p, j));
        }
        assert forall|o: int|
            0 <= o < n && (#[trigger] digits(o, w) == k + 1 || digits(o, w) == -(k + 1)) implies exists|
            r: int,
        | 0 <= r < s.len() && (#[trigger] s[r]).base == o by {
            let i = o * nw + w;
            let m = n as int;
            vstd::arithmetic::div_mod::lemma_fundamental_div_mod_converse(i, nw, o, w);
            assert(0 <= i < m * nw) by (nonlinear_arith)
                requires
                    i == o * nw + w,
                    0 <= o < m,
                    0 <= w < nw,
            ;
            digit_in_window(scalars, p, i);
            key_is_bucket(scalars, p, i, w, k);
            assert(keys[i] == key_at(scalars, p, i));
            let q = place(i);
            assert(counts[b] == crate::msm_device::occurrences(keys, b, p.total_pairs()));
            let r = q - offsets[b];
            assert(0 <= r < s.len());
            let j = place_has_source(
                keys,
                values,
                offsets,
                counts,
                sorted,
                scalars,
                p,
                place,
                winner,
                b,
                q,
            );
            if i < j {
                assert(place(i) != place(j));
            } else if j < i {
                assert(place(j) != place(i));
            }
            assert(s[r].base == o);
        }
    }
}

/// Whether each bucket is the sum of its pairs.
pub open spec fn buckets_done<G: Group>(
    act: spec_fn(int, G::Point) -> G::Point,
    bases: Seq<G::Point>,
    buckets: Seq<G::Point>,
    sorted: Seq<u32>,
    offsets: Seq<u32>,
    counts: Seq<u32>,
    p: SortedMsmParams,
) -> bool {
    &&& buckets.len() >= p.total_buckets()
    &&& forall|b: int|
        0 <= b < p.total_buckets() ==> #[trigger] buckets[b] == crate::msm_device::bucket_sum::<G>(
            act,
            bases,
            sorted,
            offsets[b] as int,
            counts[b] as nat,
        )
}

/// Whether the chunks of the buckets have been added up, plainly and weighted.
pub open spec fn chunks_done<G: Group>(
    sbp: Seq<G::Point>,
    sums: Seq<G::Point>,
    buckets: Seq<G::Point>,
    p: SortedMsmParams,
) -> bool {
    forall|w: int, i: int|
        #![trigger crate::sorted_sum::chunk_buckets(buckets, p, w, i)]
        0 <= w < p.num_windows && 0 <= i < p.chunks_per_window() ==> {
            let at = w * p.chunks_per_window() + i;
            let mine = crate::sorted_sum::chunk_buckets(buckets, p, w, i);
            &&& sums[at] == crate::group::sum::<G>(mine)
            &&& sbp[at] == crate::group::sum::<G>(crate::sorted_sum::by_position::<G>(mine, 1))
        }
}

/// Whether the chunks of each window have been combined.
pub open spec fn windows_done<G: Group>(
    windows: Seq<G::Point>,
    sbp: Seq<G::Point>,
    sums: Seq<G::Point>,
    p: SortedMsmParams,
) -> bool {
    &&& windows.len() >= p.num_windows
    &&& forall|w: int|
        0 <= w < p.num_windows ==> #[trigger] windows[w] == crate::group::sum::<G>(
            Seq::new(
                p.chunks_per_window(),
                |i: int|
                    G::plus(
                        sbp[w * p.chunks_per_window() + i],
                        crate::group::times::<G>(
                            (i * REDUCTION_CHUNK_SIZE) as nat,
                            sums[w * p.chunks_per_window() + i],
                        ),
                    ),
            ),
        )
}

/// Splitting the scalars into digits.
pub proof fn step_preprocess<G: Group, F: PrimeField, B>(
    of: spec_fn(B) -> G::Point,
    act: spec_fn(int, G::Point) -> G::Point,
    d: MsmDevice<G::Point>,
    e: MsmDevice<G::Point>,
    slot: usize,
    p: SortedMsmParams,
    local: usize,
    scalars: Seq<nat>,
)
    requires
        words_fit(p),
        local > 0,
        crate::msm_device::stepped::<G, F, B>(
            of,
            act,
            d,
            crate::sorted_msm::preprocess(slot, p, local),
            e,
        ),
        holds_scalars(d, slot, scalars, p),
        d.digits[DIGITS].len() >= p.total_pairs(),
    ensures
        crate::msm_device::wrote_digits(d, e, DIGITS),
        digits_done(e.digits[DIGITS], scalars, p),
{
    let nw = p.num_windows as int;
    p.bounds();
    crate::field_device::groups_suffice(p.n_bases as nat, local);
    assert(p.n_bases as nat * p.num_windows as nat == p.total_pairs());
    assert forall|i: int| 0 <= i < p.total_pairs() implies #[trigger] e.digits[DIGITS][i]
        == digit_at(scalars, p, i) by {
        crate::multiexp_laws::flat_index(i, p.n_bases as int, nw);
        assert(d.numbers.slots[slot][i / nw] == scalars[i / nw]);
    }
}

/// Whether the scalars of an MSM are in a slot, in standard form.
pub open spec fn holds_scalars<P>(
    d: MsmDevice<P>,
    slot: usize,
    scalars: Seq<nat>,
    p: SortedMsmParams,
) -> bool {
    &&& d.standard.contains(slot)
    &&& d.numbers.slots[slot].len() >= p.n_bases
    &&& scalars.len() == p.n_bases
    &&& forall|j: int|
        0 <= j < scalars.len() ==> #[trigger] d.numbers.slots[slot][j] == scalars[j]
}

/// Turning digits into pairs.
pub proof fn step_decompose<G: Group, F: PrimeField, B>(
    of: spec_fn(B) -> G::Point,
    act: spec_fn(int, G::Point) -> G::Point,
    d: MsmDevice<G::Point>,
    e: MsmDevice<G::Point>,
    p: SortedMsmParams,
    scalars: Seq<nat>,
)
    requires
        words_fit(p),
        crate::msm_device::stepped::<G, F, B>(of, act, d, crate::sorted_msm::decompose(p), e),
        digits_done(d.digits[DIGITS], scalars, p),
        d.words[KEYS].len() >= p.total_pairs(),
        d.words[VALUES].len() >= p.total_pairs(),
    ensures
        crate::msm_device::wrote_two(d, e, KEYS, VALUES),
        pairs_done(e.words[KEYS], e.words[VALUES], scalars, p),
{
    p.bounds();
    crate::field_device::groups_suffice(p.total_pairs(), LOCAL_WORK_SIZE);
    assert(p.n_bases as nat * p.num_windows as nat == p.total_pairs());
    let digits = d.digits[DIGITS];
    let args = crate::sorted_msm::decompose::<F, B>(p)->args;
    assert(crate::field_device::word_arg(args, 3) == p.n_bases);
    assert(crate::field_device::word_arg(args, 4) == p.num_windows);
    assert(crate::field_device::word_arg(args, 5) == p.buckets_per_window);
    assert(crate::msm_device::wrote_two(d, e, KEYS, VALUES));
    let keys = e.words[KEYS];
    let values = e.words[VALUES];
    assert(keys.len() >= p.total_pairs() && values.len() >= p.total_pairs());
    assert forall|i: int| 0 <= i < p.total_pairs() implies #[trigger] keys[i] == key_at(
        scalars,
        p,
        i,
    ) && (digit_at(scalars, p, i) != 0 ==> values[i] == value_at(scalars, p, i)) by {
        digit_in_window(scalars, p, i);
        assert(digits[i] == digit_at(scalars, p, i));
    }
    assert(pairs_done(keys, values, scalars, p));
}

/// Counting the pairs of each bucket.
pub proof fn step_count<G: Group, F: PrimeField, B>(
    of: spec_fn(B) -> G::Point,
    act: spec_fn(int, G::Point) -> G::Point,
    d: MsmDevice<G::Point>,
    e: MsmDevice<G::Point>,
    p: SortedMsmParams,
)
    requires
        words_fit(p),
        crate::msm_device::stepped::<G, F, B>(of, act, d, crate::sorted_msm::count(p), e),
        d.words[KEYS].len() >= p.total_pairs(),
        d.words[COUNTS].len() >= p.total_buckets(),
        forall|b: int| 0 <= b < p.total_buckets() ==> #[trigger] d.words[COUNTS][b] == 0,
    ensures
        crate::msm_device::wrote_words(d, e, COUNTS),
        counts_done(e.words[COUNTS], d.words[KEYS], p),
{
    p.bounds();
    crate::field_device::groups_suffice(p.total_pairs(), LOCAL_WORK_SIZE);
    assert forall|b: int| 0 <= b < p.total_buckets() implies #[trigger] e.words[COUNTS][b]
        == crate::msm_device::occurrences(d.words[KEYS], b, p.total_pairs()) by {
        assert(d.words[COUNTS][b] == 0);
        occurrences_are_few(d.words[KEYS], b, p.total_pairs());
    }
}

proof fn occurrences_are_few(keys: Seq<u32>, b: int, n: nat)
    ensures
        crate::msm_device::occurrences(keys, b, n) <= n,
    decreases n,
{
    if n > 0 {
        occurrences_are_few(keys, b, (n - 1) as nat);
    }
}

/// Turning counts into offsets, and listing the buckets that are not empty.
pub proof fn step_prefix<G: Group, F: PrimeField, B>(
    of: spec_fn(B) -> G::Point,
    act: spec_fn(int, G::Point) -> G::Point,
    d: MsmDevice<G::Point>,
    e: MsmDevice<G::Point>,
    p: SortedMsmParams,
)
    requires
        words_fit(p),
        crate::msm_device::stepped::<G, F, B>(of, act, d, crate::sorted_msm::prefix_sum(p), e),
        counts_done(d.words[COUNTS], d.words[KEYS], p),
        d.words[OFFSETS].len() >= p.total_buckets(),
        d.words[NONEMPTY_IDS].len() >= p.total_buckets(),
        d.words[NUM_NONEMPTY].len() >= 1,
    ensures
        crate::msm_device::wrote_three(d, e, OFFSETS, NONEMPTY_IDS, NUM_NONEMPTY),
        offsets_done(e.words[OFFSETS], d.words[COUNTS], p),
        crate::msm_device::lists_nonempty(
            d.words[COUNTS],
            e.words[NONEMPTY_IDS],
            e.words[NUM_NONEMPTY][0] as nat,
            p.total_buckets(),
        ),
{
    p.bounds();
    let counts = d.words[COUNTS];
    assert forall|b: int| 0 <= b < p.total_buckets() implies #[trigger] e.words[OFFSETS][b]
        == crate::msm_device::count_before(counts, b as nat) by {
        counts_are_occurrences(counts, d.words[KEYS], b as nat, p.total_pairs());
    }
}

/// Sorting the pairs.
pub proof fn step_scatter<G: Group, F: PrimeField, B>(
    of: spec_fn(B) -> G::Point,
    act: spec_fn(int, G::Point) -> G::Point,
    d: MsmDevice<G::Point>,
    e: MsmDevice<G::Point>,
    p: SortedMsmParams,
    scalars: Seq<nat>,
)
    requires
        words_fit(p),
        crate::msm_device::stepped::<G, F, B>(of, act, d, crate::sorted_msm::scatter(p), e),
        pairs_done(d.words[KEYS], d.words[VALUES], scalars, p),
        counts_done(d.words[COUNTS], d.words[KEYS], p),
        offsets_done(d.words[OFFSETS], d.words[COUNTS], p),
        d.words[SCATTER_OFFSETS].len() >= p.total_buckets(),
        forall|b: int|
            0 <= b < p.total_buckets() ==> #[trigger] d.words[SCATTER_OFFSETS][b]
                == d.words[OFFSETS][b],
        d.words[SORTED].len() >= p.total_pairs(),
    ensures
        crate::msm_device::wrote_two(d, e, SCATTER_OFFSETS, SORTED),
        sorted_done(e.words[SORTED], e.words[OFFSETS], e.words[COUNTS], scalars, p),
{
    p.bounds();
    crate::field_device::groups_suffice(p.total_pairs(), LOCAL_WORK_SIZE);
    let keys = d.words[KEYS];
    let values = d.words[VALUES];
    let from = d.words[SCATTER_OFFSETS];
    let sorted = e.words[SORTED];
    let n = p.total_pairs();
    let (place, winner) = choose|place: spec_fn(int) -> int, winner: spec_fn(int) -> int|
        #[trigger] crate::msm_device::scattered(keys, values, from, n, sorted, place, winner);
    assert(crate::msm_device::scattered(keys, values, from, n, sorted, place, winner));
    let counts = d.words[COUNTS];
    assert(offsets_done(from, counts, p)) by {
        assert forall|b: int| 0 <= b < p.total_buckets() implies #[trigger] from[b]
            == crate::msm_device::count_before(counts, b as nat) by {
            assert(d.words[OFFSETS][b] == crate::msm_device::count_before(counts, b as nat));
        }
    }
    scatter_sorts(keys, values, from, counts, sorted, scalars, p, place, winner);
    let offsets = d.words[OFFSETS];
    assert forall|w: int, k: int|
        0 <= w < p.num_windows && 0 <= k < p.buckets_per_window implies crate::sorted_sum::lists(
        #[trigger] members_of(
            sorted,
            offsets,
            counts,
            crate::sorted_sum::bucket_index(p, w, k),
        ),
        crate::sorted_sum::digits_of(scalars, p.window_size as nat),
        p.n_bases as nat,
        w,
        k,
    ) by {
        let b = crate::sorted_sum::bucket_index(p, w, k);
        key_is_bucket(scalars, p, 0, w, k);
        assert(from[b] == offsets[b]);
        assert(members_of(sorted, offsets, counts, b) =~= members_of(sorted, from, counts, b));
    }
}

/// Reducing the buckets of each window in chunks.
pub proof fn step_reduce<G: Group, F: PrimeField, B>(
    of: spec_fn(B) -> G::Point,
    act: spec_fn(int, G::Point) -> G::Point,
    d: MsmDevice<G::Point>,
    e: MsmDevice<G::Point>,
    p: SortedMsmParams,
)
    requires
        words_fit(p),
        crate::msm_device::stepped::<G, F, B>(of, act, d, crate::sorted_msm::reduce_chunked(p), e),
        d.points[CHUNK_SBP].len() >= p.total_chunks(),
        d.points[CHUNK_SUM].len() >= p.total_chunks(),
    ensures
        crate::msm_device::wrote_both(d, e, CHUNK_SBP, CHUNK_SUM),
        chunks_done::<G>(e.points[CHUNK_SBP], e.points[CHUNK_SUM], d.points[BUCKET_RESULTS], p),
{
    p.bounds();
    let buckets = d.points[BUCKET_RESULTS];
    let chunks = p.chunks_per_window() as int;
    let nw = p.num_windows as int;
    let args = crate::sorted_msm::reduce_chunked::<F, B>(p)->args;
    assert(args[5] == crate::session::Arg::LocalPoints(REDUCTION_CHUNK_SIZE));
    assert(crate::field_device::word_arg(args, 3) == p.buckets_per_window);
    assert(crate::field_device::word_arg(args, 4) == chunks);
    assert(crate::field_device::slot_arg(args, 0) == BUCKET_RESULTS);
    assert forall|w: int, i: int|
        #![trigger crate::sorted_sum::chunk_buckets(buckets, p, w, i)]
        0 <= w < p.num_windows && 0 <= i < p.chunks_per_window() implies ({
        let at = w * p.chunks_per_window() + i;
        let mine = crate::sorted_sum::chunk_buckets(buckets, p, w, i);
        &&& e.points[CHUNK_SUM][at] == crate::group::sum::<G>(mine)
        &&& e.points[CHUNK_SBP][at] == crate::group::sum::<G>(
            crate::sorted_sum::by_position::<G>(mine, 1),
        )
    }) by {
        let g = w * chunks + i;
        vstd::arithmetic::div_mod::lemma_fundamental_div_mod_converse(g, chunks, w, i);
        assert(0 <= g < nw * chunks) by (nonlinear_arith)
            requires
                g == w * chunks + i,
                0 <= w < nw,
                0 <= i < chunks,
        ;
        let mine = crate::msm_device::group_buckets(
            buckets,
            p.buckets_per_window as nat,
            chunks as nat,
            REDUCTION_CHUNK_SIZE as nat,
            g,
        );
        assert(mine =~= crate::sorted_sum::chunk_buckets(buckets, p, w, i));
    }
}

/// Combining the chunks of each window.
pub proof fn step_combine<G: Group, F: PrimeField, B>(
    of: spec_fn(B) -> G::Point,
    act: spec_fn(int, G::Point) -> G::Point,
    d: MsmDevice<G::Point>,
    e: MsmDevice<G::Point>,
    p: SortedMsmParams,
)
    requires
        words_fit(p),
        crate::msm_device::stepped::<G, F, B>(of, act, d, crate::sorted_msm::combine_chunks(p), e),
        d.points[WINDOW_RESULTS].len() >= p.num_windows,
    ensures
        crate::msm_device::wrote_points(d, e, WINDOW_RESULTS),
        windows_done::<G>(e.points[WINDOW_RESULTS], d.points[CHUNK_SBP], d.points[CHUNK_SUM], p),
{
    p.bounds();
    crate::field_device::groups_suffice(p.num_windows as nat, LOCAL_WORK_SIZE);
    assert forall|w: int| 0 <= w < p.num_windows implies #[trigger] e.points[WINDOW_RESULTS][w]
        == crate::group::sum::<G>(
        Seq::new(
            p.chunks_per_window(),
            |i: int|
                G::plus(
                    d.points[CHUNK_SBP][w * p.chunks_per_window() + i],
                    crate::group::times::<G>(
                        (i * REDUCTION_CHUNK_SIZE) as nat,
                        d.points[CHUNK_SUM][w * p.chunks_per_window() + i],
                    ),
                ),
        ),
    ) by {
        let a = Seq::new(
            p.chunks_per_window(),
            |i: int|
                G::plus(
                    d.points[CHUNK_SBP][w * p.chunks_per_window() + i],
                    crate::group::times::<G>(
                        (i * REDUCTION_CHUNK_SIZE) as nat,
                        d.points[CHUNK_SUM][w * p.chunks_per_window() + i],
                    ),
                ),
        );
        let size = REDUCTION_CHUNK_SIZE as nat;
        let b = Seq::new(
            p.chunks_per_window(),
            |i: int|
                G::plus(
                    d.points[CHUNK_SBP][w * p.chunks_per_window() + i],
                    crate::group::times::<G>(
                        (i * size) as nat,
                        d.points[CHUNK_SUM][w * p.chunks_per_window() + i],
                    ),
                ),
        );
        assert(a =~= b);
    }
}

/// Combining the windows.
pub proof fn step_windows<G: Group, F: PrimeField, B>(
    of: spec_fn(B) -> G::Point,
    act: spec_fn(int, G::Point) -> G::Point,
    d: MsmDevice<G::Point>,
    e: MsmDevice<G::Point>,
    p: SortedMsmParams,
)
    requires
        words_fit(p),
        crate::msm_device::stepped::<G, F, B>(of, act, d, crate::sorted_msm::reduce_windows(p), e),
        d.points[FINAL_RESULT].len() >= 1,
    ensures
        crate::msm_device::wrote_points(d, e, FINAL_RESULT),
        e.points[FINAL_RESULT][0] == crate::msm_device::window_horner::<G>(
            d.points[WINDOW_RESULTS],
            p.num_windows as nat,
            p.window_size as nat,
            p.effective_bits as nat,
            0,
        ),
{
    p.bounds();
}

proof fn window_horner_in<G: Group>(
    c: Set<G::Point>,
    windows: Seq<G::Point>,
    p: SortedMsmParams,
    i: nat,
)
    requires
        crate::group::abelian::<G>(c),
        windows.len() >= p.num_windows,
        forall|w: int| 0 <= w < p.num_windows ==> c.contains(#[trigger] windows[w]),
    ensures
        c.contains(
            crate::msm_device::window_horner::<G>(
                windows,
                p.num_windows as nat,
                p.window_size as nat,
                p.effective_bits as nat,
                i,
            ),
        ),
    decreases p.num_windows - i,
{
    if i < p.num_windows {
        window_horner_in::<G>(c, windows, p, i + 1);
        let up = crate::msm_device::window_horner::<G>(
            windows,
            p.num_windows as nat,
            p.window_size as nat,
            p.effective_bits as nat,
            i + 1,
        );
        crate::group::doubled_in::<G>(
            c,
            up,
            crate::arith::min_of(
                p.window_size as int,
                p.effective_bits - i * p.window_size as nat,
            ) as nat,
        );
        assert(c.contains(windows[i as int]));
    }
}

/// Horner's method goes on from the windows below.
proof fn window_horner_progress<G: Group>(
    c: Set<G::Point>,
    windows: Seq<G::Point>,
    p: SortedMsmParams,
    i: nat,
)
    requires
        crate::group::abelian::<G>(c),
        p.wf(),
        windows.len() == p.num_windows,
        crate::group::all_in(c, windows),
        i <= p.num_windows,
    ensures
        crate::group::sum::<G>(
            crate::sorted_sum::weighted::<G>(windows, p.window_size as nat),
        ) == G::plus(
            crate::group::sum::<G>(
                crate::sorted_sum::weighted::<G>(windows.take(i as int), p.window_size as nat),
            ),
            crate::group::doubled::<G>(
                crate::msm_device::window_horner::<G>(
                    windows,
                    p.num_windows as nat,
                    p.window_size as nat,
                    p.effective_bits as nat,
                    i,
                ),
                (i * p.window_size) as nat,
            ),
        ),
    decreases p.num_windows - i,
{
    let ws = p.window_size as nat;
    let nw = p.num_windows as nat;
    let bits = p.effective_bits as nat;
    let here = crate::sorted_sum::weighted::<G>(windows.take(i as int), ws);
    assert forall|j: int| 0 <= j < here.len() implies c.contains(#[trigger] here[j]) by {
        assert(c.contains(windows[j]));
        crate::group::doubled_in::<G>(c, windows[j], (j * ws) as nat);
    }
    crate::group::add_all_in::<G>(c, G::identity(), here);
    let sh = crate::group::sum::<G>(here);
    if i == nw {
        crate::group::doubled_identity::<G>(c, (i * p.window_size) as nat);
        assert(windows.take(i as int) =~= windows);
        assert(G::plus(sh, G::identity()) == G::plus(G::identity(), sh));
    } else {
        window_horner_progress::<G>(c, windows, p, i + 1);
        window_horner_in::<G>(c, windows, p, i + 1);
        let next = crate::sorted_sum::weighted::<G>(windows.take(i as int + 1), ws);
        assert(next.drop_last() =~= here);
        let h1 = crate::msm_device::window_horner::<G>(windows, nw, ws, bits, i + 1);
        let h = crate::msm_device::window_horner::<G>(windows, nw, ws, bits, i);
        let w = windows[i as int];
        assert(c.contains(w));
        let shift = (i * p.window_size) as nat;
        let shift1 = ((i + 1) * p.window_size) as nat;
        let by = crate::arith::min_of(ws as int, bits - i * ws) as nat;
        let term = crate::group::doubled::<G>(w, shift);
        assert(next.last() == term);
        assert(crate::group::sum::<G>(next) == G::plus(sh, term));
        let up = crate::group::doubled::<G>(h1, by);
        crate::group::doubled_in::<G>(c, h1, by);
        assert(h == G::plus(up, w));
        crate::group::doubled_plus::<G>(c, up, w, shift);
        let high = crate::group::doubled::<G>(h1, shift1);
        if i + 1 == nw {
            crate::group::doubled_identity::<G>(c, by);
            crate::group::doubled_identity::<G>(c, shift);
            crate::group::doubled_identity::<G>(c, shift1);
        } else {
            crate::multiexp::windows_cover_bits(bits, ws);
            let n = nw as int;
            let b = bits as int;
            let size = ws as int;
            let ii = i as int;
            assert(b - ii * size >= size) by (nonlinear_arith)
                requires
                    (n - 1) * size <= b,
                    ii + 1 <= n - 1,
                    size >= 0,
            ;
            assert(by == ws);
            crate::group::doubled_doubled::<G>(h1, ws, shift);
            assert(size + ii * size == (ii + 1) * size) by (nonlinear_arith);
        }
        assert(crate::group::doubled::<G>(up, shift) == high);
        crate::group::doubled_in::<G>(c, h1, shift1);
        crate::group::doubled_in::<G>(c, w, shift);
        assert(G::plus(high, term) == G::plus(term, high));
        assert(G::plus(sh, G::plus(term, high)) == G::plus(G::plus(sh, term), high));
    }
}

/// What the sorted values of a part of a bucket add up to.
pub proof fn part_is_entries<G: Group>(
    act: spec_fn(int, G::Point) -> G::Point,
    bases: Seq<G::Point>,
    sorted: Seq<u32>,
    offsets: Seq<u32>,
    counts: Seq<u32>,
    b: int,
    from: int,
    to: int,
)
    requires
        0 <= from <= to <= counts[b],
    ensures
        crate::msm_device::bucket_sum::<G>(
            act,
            bases,
            sorted,
            offsets[b] + from,
            (to - from) as nat,
        ) == crate::group::sum::<G>(
            crate::sorted_sum::entry_points::<G>(
                act,
                bases,
                members_of(sorted, offsets, counts, b).subrange(from, to),
            ),
        ),
{
    let mine = Seq::new(
        (to - from) as nat,
        |j: int|
            crate::msm_device::signed_base::<G>(act, bases, sorted[offsets[b] + from + j]),
    );
    let entries = crate::sorted_sum::entry_points::<G>(
        act,
        bases,
        members_of(sorted, offsets, counts, b).subrange(from, to),
    );
    assert forall|j: int| 0 <= j < mine.len() implies mine[j] == entries[j] by {
        assert(offsets[b] + from + j == offsets[b] + (from + j));
    }
    assert(mine =~= entries);
}

/// What the windows make is the sum of the multiples of the bases by the scalars.
pub proof fn windows_make_sum<G: Group>(
    c: Set<G::Point>,
    act: spec_fn(int, G::Point) -> G::Point,
    bases: Seq<G::Point>,
    scalars: Seq<nat>,
    p: SortedMsmParams,
    sorted: Seq<u32>,
    offsets: Seq<u32>,
    counts: Seq<u32>,
    buckets: Seq<G::Point>,
    sbp: Seq<G::Point>,
    sums: Seq<G::Point>,
    windows: Seq<G::Point>,
)
    requires
        crate::group::abelian::<G>(c),
        crate::single_multiexp::integer_action::<G>(c, act),
        crate::group::all_in(c, bases),
        words_fit(p),
        p.n_bases == bases.len(),
        scalars.len() == bases.len(),
        forall|j: int|
            0 <= j < scalars.len() ==> #[trigger] scalars[j] < vstd::arithmetic::power2::pow2(
                p.effective_bits as nat,
            ),
        sorted_done(sorted, offsets, counts, scalars, p),
        buckets_done::<G>(act, bases, buckets, sorted, offsets, counts, p),
        chunks_done::<G>(sbp, sums, buckets, p),
        windows_done::<G>(windows, sbp, sums, p),
    ensures
        crate::msm_device::window_horner::<G>(
            windows,
            p.num_windows as nat,
            p.window_size as nat,
            p.effective_bits as nat,
            0,
        ) == crate::sorted_sum::multiples::<G>(act, bases, scalars),
{
    let tb = p.total_buckets();
    let nw = p.num_windows as nat;
    let ws = p.window_size as nat;
    let mine = windows.take(nw as int);
    let total = crate::group::sum::<G>(crate::sorted_sum::weighted::<G>(mine, ws));
    let run = SortedRun::<G::Point> {
        members: Seq::new(tb, |b: int| members_of(sorted, offsets, counts, b)),
        counts,
        ids: Seq::empty(),
        num_nonempty: 0,
        partials: Seq::empty(),
        buckets: buckets.take(tb as int),
        chunk_sbp: sbp,
        chunk_sum: sums,
        windows: mine,
        result: total,
    };
    let digits = crate::sorted_sum::digits_of(scalars, ws);
    p.bounds();
    assert(crate::sorted_sum::sorted(run, digits, p)) by {
        assert forall|w: int, k: int|
            0 <= w < p.num_windows && 0 <= k < p.buckets_per_window implies crate::sorted_sum::lists(
            #[trigger] run.members[crate::sorted_sum::bucket_index(p, w, k)],
            digits,
            p.n_bases as nat,
            w,
            k,
        ) by {
            let b = crate::sorted_sum::bucket_index(p, w, k);
            key_is_bucket(scalars, p, 0, w, k);
            assert(run.members[b] == members_of(sorted, offsets, counts, b));
        }
    }
    assert(crate::sorted_sum::added_up::<G>(run, act, bases)) by {
        assert forall|b: int| 0 <= b < run.buckets.len() implies #[trigger] run.buckets[b]
            == crate::group::sum::<G>(
            crate::sorted_sum::entry_points::<G>(act, bases, run.members[b]),
        ) by {
            part_is_entries::<G>(
                act,
                bases,
                sorted,
                offsets,
                counts,
                b,
                0,
                counts[b] as int,
            );
            let all = members_of(sorted, offsets, counts, b);
            assert(all.subrange(0, counts[b] as int) =~= all);
            assert(buckets[b] == run.buckets[b]);
        }
    }
    assert(crate::sorted_sum::reduced::<G>(run, p)) by {
        assert forall|w: int, i: int|
            #![trigger crate::sorted_sum::chunk_buckets(run.buckets, p, w, i)]
            0 <= w < p.num_windows && 0 <= i < p.chunks_per_window() implies ({
            let at = w * p.chunks_per_window() + i;
            let some = crate::sorted_sum::chunk_buckets(run.buckets, p, w, i);
            &&& run.chunk_sum[at] == crate::group::sum::<G>(some)
            &&& run.chunk_sbp[at] == crate::group::sum::<G>(
                crate::sorted_sum::by_position::<G>(some, 1),
            )
        }) by {
            let some = crate::sorted_sum::chunk_buckets(run.buckets, p, w, i);
            let same = crate::sorted_sum::chunk_buckets(buckets, p, w, i);
            assert forall|l: int| 0 <= l < some.len() implies some[l] == same[l] by {
                key_is_bucket(scalars, p, 0, w, i * REDUCTION_CHUNK_SIZE + l);
            }
            assert(some =~= same);
        }
    }
    assert(crate::sorted_sum::combined::<G>(run, p)) by {
        assert forall|w: int| 0 <= w < p.num_windows implies #[trigger] run.windows[w]
            == crate::group::sum::<G>(
            Seq::new(
                p.chunks_per_window(),
                |i: int| crate::sorted_sum::chunk_share::<G>(run, p, w, i),
            ),
        ) by {
            assert(windows[w] == run.windows[w]);
            assert(Seq::new(
                p.chunks_per_window(),
                |i: int| crate::sorted_sum::chunk_share::<G>(run, p, w, i),
            ) =~= Seq::new(
                p.chunks_per_window(),
                |i: int|
                    G::plus(
                        sbp[w * p.chunks_per_window() + i],
                        crate::group::times::<G>(
                            (i * REDUCTION_CHUNK_SIZE) as nat,
                            sums[w * p.chunks_per_window() + i],
                        ),
                    ),
            ));
        }
    }
    crate::sorted_sum::unwatched_msm_is_sum_of_multiples::<G>(c, act, bases, scalars, p, run);
    assert forall|w: int| 0 <= w < mine.len() implies c.contains(#[trigger] mine[w]) by {
        assert forall|b: int, v: int|
            -p.buckets_per_window <= #[trigger] digits(b, v) <= p.buckets_per_window by {
            crate::booth::digit_bounds(scalars[b], ws, v as nat);
        }
        crate::sorted_sum::window_is_digits::<G>(c, run, act, bases, digits, p, w);
        let terms = crate::single_multiexp::digit_terms::<G>(
            act,
            bases,
            digits,
            w,
            bases.len(),
        );
        assert forall|j: int| 0 <= j < terms.len() implies c.contains(#[trigger] terms[j]) by {
            assert(c.contains(bases[j]));
        }
        crate::group::add_all_in::<G>(c, G::identity(), terms);
    }
    window_horner_progress::<G>(c, mine, p, 0);
    window_horner_in::<G>(c, mine, p, 0);
    window_horner_of_first::<G>(windows, mine, p, 0);
    let h = crate::msm_device::window_horner::<G>(mine, nw, ws, p.effective_bits as nat, 0);
    assert(crate::sorted_sum::weighted::<G>(mine.take(0), ws) =~= Seq::empty());
    assert(0 * p.window_size == 0);
    assert(G::plus(G::identity(), h) == h);
}

proof fn window_horner_of_first<G: Group>(
    windows: Seq<G::Point>,
    mine: Seq<G::Point>,
    p: SortedMsmParams,
    i: nat,
)
    requires
        windows.len() >= p.num_windows,
        mine == windows.take(p.num_windows as int),
    ensures
        crate::msm_device::window_horner::<G>(
            windows,
            p.num_windows as nat,
            p.window_size as nat,
            p.effective_bits as nat,
            i,
        ) == crate::msm_device::window_horner::<G>(
            mine,
            p.num_windows as nat,
            p.window_size as nat,
            p.effective_bits as nat,
            i,
        ),
    decreases p.num_windows - i,
{
    if i < p.num_windows {
        window_horner_of_first::<G>(windows, mine, p, i + 1);
    }
}

} // verus!
