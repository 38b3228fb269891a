//! Dispatch tables for chunked bucket accumulation.

use vstd::prelude::*;

use crate::arith::div_ceil;
use crate::multiexp::CHUNK_SIZE;

verus! {

/// A piece of a bucket that one thread adds up.
pub struct Chunk {
    /// The bucket.
    pub bucket: u32,
    /// The position of the first point within the bucket.
    pub start: nat,
    /// The number of points.
    pub count: nat,
}

/// How many chunks a bucket with `count` points is split into.
pub open spec fn num_chunks(count: u32) -> nat {
    crate::arith::ceil_div(count as int, CHUNK_SIZE as int) as nat
}

/// The chunks of a bucket with `count` points.
pub open spec fn bucket_chunks(bucket: u32, count: u32) -> Seq<Chunk> {
    Seq::new(
        num_chunks(count),
        |j: int|
            Chunk {
                bucket,
                start: (j * CHUNK_SIZE) as nat,
                count: crate::arith::min_of(CHUNK_SIZE as int, count - j * CHUNK_SIZE) as nat,
            },
    )
}

/// The chunks of the first `n` of the listed buckets.
pub open spec fn all_chunks(sizes: Seq<u32>, ids: Seq<u32>, n: nat) -> Seq<Chunk>
    decreases n,
{
    if n == 0 {
        Seq::empty()
    } else {
        let id = ids[n - 1];
        all_chunks(sizes, ids, (n - 1) as nat) + bucket_chunks(id, sizes[id as int])
    }
}

/// A chunk in the dispatch table: bucket, start, count.
pub open spec fn chunk_words(chunks: Seq<Chunk>) -> Seq<u32>
    decreases chunks.len(),
{
    if chunks.len() == 0 {
        Seq::empty()
    } else {
        let c = chunks.last();
        chunk_words(chunks.drop_last()) + seq![c.bucket, c.start as u32, c.count as u32]
    }
}

/// The reduce table of the first `n` of the listed buckets: for each of them the index of its
/// first chunk and the number of its chunks.
pub open spec fn reduce_words(sizes: Seq<u32>, ids: Seq<u32>, n: nat) -> Seq<u32>
    decreases n,
{
    if n == 0 {
        Seq::empty()
    } else {
        let m = (n - 1) as nat;
        reduce_words(sizes, ids, m) + seq![
            all_chunks(sizes, ids, m).len() as u32,
            num_chunks(sizes[ids[n - 1] as int]) as u32,
        ]
    }
}

/// Whether the first `n` listed buckets exist.
pub open spec fn listed(sizes: Seq<u32>, ids: Seq<u32>, n: nat) -> bool {
    &&& n <= ids.len()
    &&& forall|t: int| 0 <= t < n ==> (#[trigger] ids[t]) < sizes.len()
}

/// Whether the first `num_nonempty` listed buckets exist.
pub fn all_listed(bucket_sizes: &[u32], nonempty_bucket_ids: &[u32], num_nonempty: usize) -> (r:
    bool)
    ensures
        r == listed(bucket_sizes@, nonempty_bucket_ids@, num_nonempty as nat),
{
    if num_nonempty > nonempty_bucket_ids.len() {
        return false;
    }
    let mut t: usize = 0;
    while t < num_nonempty
        invariant
            t <= num_nonempty <= nonempty_bucket_ids@.len(),
            forall|s: int| 0 <= s < t ==> (#[trigger] nonempty_bucket_ids@[s]) < bucket_sizes@.len(),
        decreases num_nonempty - t,
    {
        if nonempty_bucket_ids[t] as usize >= bucket_sizes.len() {
            assert(!(nonempty_bucket_ids@[t as int] < bucket_sizes@.len()));
            return false;
        }
        t = t + 1;
    }
    true
}

/// Build dispatch and reduce tables for chunked bucket accumulation.
///
/// For each non-empty bucket, if it has <= CHUNK_SIZE points, create one dispatch entry.
/// If it has > CHUNK_SIZE points, split it into ceil(count/CHUNK_SIZE) chunks.
///
/// Returns (dispatch_table, reduce_table, num_dispatches) where:
/// - dispatch_table: Vec<u32> with [bucket_id, chunk_start, chunk_count] per dispatch
/// - reduce_table: Vec<u32> with [partial_start, num_partials] per non-empty bucket
/// - num_dispatches: total number of dispatch entries
pub fn build_dispatch_tables(
    bucket_sizes: &[u32],
    nonempty_bucket_ids: &[u32],
    num_nonempty: usize,
) -> (r: (Vec<u32>, Vec<u32>, usize))
    requires
        listed(bucket_sizes@, nonempty_bucket_ids@, num_nonempty as nat),
    ensures
        r.0@ == chunk_words(
            all_chunks(bucket_sizes@, nonempty_bucket_ids@, num_nonempty as nat),
        ),
        r.1@ == reduce_words(bucket_sizes@, nonempty_bucket_ids@, num_nonempty as nat),
        r.2 == all_chunks(bucket_sizes@, nonempty_bucket_ids@, num_nonempty as nat).len(),
{
    let mut dispatch_table: Vec<u32> = Vec::new();
    let mut reduce_table: Vec<u32> = Vec::new();
    let mut dispatch_idx: usize = 0;
    let mut t: usize = 0;
    while t < num_nonempty
        invariant
            t <= num_nonempty,
            listed(bucket_sizes@, nonempty_bucket_ids@, num_nonempty as nat),
            dispatch_table@ == chunk_words(
                all_chunks(bucket_sizes@, nonempty_bucket_ids@, t as nat),
            ),
            reduce_table@ == reduce_words(bucket_sizes@, nonempty_bucket_ids@, t as nat),
            dispatch_idx == all_chunks(bucket_sizes@, nonempty_bucket_ids@, t as nat).len(),
            dispatch_table@.len() == 3 * dispatch_idx,
        decreases num_nonempty - t,
    {
        let bid: u32 = nonempty_bucket_ids[t];
        let count: u32 = bucket_sizes[bid as usize];
        let num: usize = div_ceil(count as usize, CHUNK_SIZE);
        let partial_start: usize = dispatch_idx;
        let ghost before = all_chunks(bucket_sizes@, nonempty_bucket_ids@, t as nat);
        let ghost mine = bucket_chunks(bid, count);
        let mut chunk: usize = 0;
        assert(before + mine.take(0) =~= before);
        proof {
            crate::arith::ceil_div_least(count as int, CHUNK_SIZE as int);
        }
        while chunk < num
            invariant
                chunk <= num,
                num == num_chunks(count),
                (num - 1) * CHUNK_SIZE < count,
                mine == bucket_chunks(bid, count),
                dispatch_table@ == chunk_words(before + mine.take(chunk as int)),
                dispatch_idx == before.len() + chunk,
                dispatch_table@.len() == 3 * dispatch_idx,
            decreases num - chunk,
        {
            let chunk_start: usize = chunk * CHUNK_SIZE;
            let rest: usize = count as usize - chunk_start;
            let chunk_count: usize = if CHUNK_SIZE <= rest {
                CHUNK_SIZE
            } else {
                rest
            };
            proof {
                let now = before + mine.take(chunk as int);
                let next = before + mine.take(chunk + 1);
                assert(next.drop_last() =~= now);
                assert(next.last() == mine[chunk as int]);
            }
            assert(dispatch_table.len() <= usize::MAX);
            dispatch_table.push(bid);
            dispatch_table.push(chunk_start as u32);
            dispatch_table.push(chunk_count as u32);
            assert(dispatch_table.len() <= usize::MAX);
            assert(dispatch_table@ =~= chunk_words(before + mine.take(chunk + 1)));
            dispatch_idx = dispatch_idx + 1;
            chunk = chunk + 1;
        }
        assert(mine.take(num as int) =~= mine);
        reduce_table.push(partial_start as u32);
        reduce_table.push(num as u32);
        t = t + 1;
        assert(reduce_table@ =~= reduce_words(bucket_sizes@, nonempty_bucket_ids@, t as nat));
    }
    (dispatch_table, reduce_table, dispatch_idx)
}

/// The chunks of a bucket lie back to back, hold between one and [`CHUNK_SIZE`] points each, and
/// together hold all points of the bucket.
pub proof fn chunks_tile_bucket(bucket: u32, count: u32)
    ensures
        forall|j: int|
            0 <= j < bucket_chunks(bucket, count).len() ==> {
                let c = #[trigger] bucket_chunks(bucket, count)[j];
                &&& c.bucket == bucket
                &&& 1 <= c.count <= CHUNK_SIZE
                &&& c.start == (if j == 0 {
                    0
                } else {
                    bucket_chunks(bucket, count)[j - 1].start + bucket_chunks(
                        bucket,
                        count,
                    )[j - 1].count
                })
            },
        count == 0 ==> bucket_chunks(bucket, count).len() == 0,
        count > 0 ==> bucket_chunks(bucket, count).len() > 0 && bucket_chunks(
            bucket,
            count,
        ).last().start + bucket_chunks(bucket, count).last().count == count,
{
    crate::arith::ceil_div_least(count as int, CHUNK_SIZE as int);
}

/// The sum of the sizes of the chunks.
pub open spec fn points_in(chunks: Seq<Chunk>) -> nat
    decreases chunks.len(),
{
    if chunks.len() == 0 {
        0
    } else {
        points_in(chunks.drop_last()) + chunks.last().count
    }
}

/// The sum of the sizes of the first `n` listed buckets.
pub open spec fn points_listed(sizes: Seq<u32>, ids: Seq<u32>, n: nat) -> nat
    decreases n,
{
    if n == 0 {
        0
    } else {
        points_listed(sizes, ids, (n - 1) as nat) + sizes[ids[n - 1] as int] as nat
    }
}

proof fn points_in_concat(a: Seq<Chunk>, b: Seq<Chunk>)
    ensures
        points_in(a + b) == points_in(a) + points_in(b),
    decreases b.len(),
{
    if b.len() == 0 {
        assert(a + b =~= a);
    } else {
        assert((a + b).drop_last() =~= a + b.drop_last());
        points_in_concat(a, b.drop_last());
    }
}

proof fn points_in_bucket(bucket: u32, count: u32, n: nat)
    requires
        n <= num_chunks(count),
    ensures
        points_in(bucket_chunks(bucket, count).take(n as int)) == crate::arith::min_of(
            n * CHUNK_SIZE,
            count as int,
        ),
    decreases n,
{
    let s = bucket_chunks(bucket, count);
    crate::arith::ceil_div_least(count as int, CHUNK_SIZE as int);
    if n > 0 {
        points_in_bucket(bucket, count, (n - 1) as nat);
        assert(s.take(n as int).drop_last() =~= s.take(n - 1));
    }
}

/// The chunks of the listed buckets together hold as many points as
/// the buckets do.
pub proof fn chunks_hold_all_points(sizes: Seq<u32>, ids: Seq<u32>, n: nat)
    ensures
        points_in(all_chunks(sizes, ids, n)) == points_listed(sizes, ids, n),
    decreases n,
{
    if n > 0 {
        let id = ids[n - 1];
        let count = sizes[id as int];
        chunks_hold_all_points(sizes, ids, (n - 1) as nat);
        points_in_concat(all_chunks(sizes, ids, (n - 1) as nat), bucket_chunks(id, count));
        points_in_bucket(id, count, num_chunks(count));
        crate::arith::ceil_div_least(count as int, CHUNK_SIZE as int);
        assert(bucket_chunks(id, count).take(num_chunks(count) as int) =~= bucket_chunks(
            id,
            count,
        ));
    }
}

/// Where no listed bucket is empty, there are as many dispatches as buckets exactly if no bucket
/// has more than [`CHUNK_SIZE`] points, and more otherwise.
pub proof fn one_dispatch_per_bucket(sizes: Seq<u32>, ids: Seq<u32>, n: nat)
    requires
        forall|t: int| 0 <= t < n ==> sizes[(#[trigger] ids[t]) as int] > 0,
    ensures
        all_chunks(sizes, ids, n).len() >= n,
        all_chunks(sizes, ids, n).len() == n <==> forall|t: int|
            0 <= t < n ==> sizes[(#[trigger] ids[t]) as int] <= CHUNK_SIZE,
    decreases n,
{
    if n > 0 {
        let count = sizes[ids[n - 1] as int];
        one_dispatch_per_bucket(sizes, ids, (n - 1) as nat);
        crate::arith::ceil_div_least(count as int, CHUNK_SIZE as int);
        assert(all_chunks(sizes, ids, n).len() == all_chunks(sizes, ids, (n - 1) as nat).len()
            + num_chunks(count));
        if count <= CHUNK_SIZE {
            assert(num_chunks(count) == 1);
        } else {
            assert(num_chunks(count) > 1);
        }
    }
}

/// The entry of the reduce table for a listed bucket.
pub proof fn reduce_table_entry(sizes: Seq<u32>, ids: Seq<u32>, n: nat, t: nat)
    requires
        t < n,
    ensures
        reduce_words(sizes, ids, n).len() == 2 * n,
        reduce_words(sizes, ids, n)[2 * (t as int)] == all_chunks(sizes, ids, t).len() as u32,
        reduce_words(sizes, ids, n)[2 * (t as int) + 1] == num_chunks(sizes[ids[t as int] as int]) as u32,
        all_chunks(sizes, ids, t + 1).len() == all_chunks(sizes, ids, t).len() + num_chunks(
            sizes[ids[t as int] as int],
        ),
    decreases n,
{
    reduce_words_len(sizes, ids, (n - 1) as nat);
    if t < n - 1 {
        reduce_table_entry(sizes, ids, (n - 1) as nat, t);
    }
}

proof fn reduce_words_len(sizes: Seq<u32>, ids: Seq<u32>, n: nat)
    ensures
        reduce_words(sizes, ids, n).len() == 2 * n,
    decreases n,
{
    if n > 0 {
        reduce_words_len(sizes, ids, (n - 1) as nat);
    }
}

/// The entry of the dispatch table for a chunk.
pub proof fn dispatch_table_entry(chunks: Seq<Chunk>, k: int)
    requires
        0 <= k < chunks.len(),
    ensures
        chunk_words(chunks).len() == 3 * chunks.len(),
        chunk_words(chunks)[3 * k] == chunks[k].bucket,
        chunk_words(chunks)[3 * k + 1] == chunks[k].start as u32,
        chunk_words(chunks)[3 * k + 2] == chunks[k].count as u32,
    decreases chunks.len(),
{
    chunk_words_len(chunks.drop_last());
    if k < chunks.len() - 1 {
        dispatch_table_entry(chunks.drop_last(), k);
    }
}

proof fn chunk_words_len(chunks: Seq<Chunk>)
    ensures
        chunk_words(chunks).len() == 3 * chunks.len(),
    decreases chunks.len(),
{
    if chunks.len() > 0 {
        chunk_words_len(chunks.drop_last());
    }
}

/// Where the chunks of a listed bucket are among all chunks.
pub proof fn chunks_of_listed(sizes: Seq<u32>, ids: Seq<u32>, n: nat, t: nat)
    requires
        t < n,
    ensures
        ({
            let all = all_chunks(sizes, ids, n);
            let first = all_chunks(sizes, ids, t).len();
            let mine = bucket_chunks(ids[t as int], sizes[ids[t as int] as int]);
            &&& first + mine.len() <= all.len()
            &&& forall|j: int| 0 <= j < mine.len() ==> all[first + j] == #[trigger] mine[j]
        }),
    decreases n,
{
    if t < n - 1 {
        chunks_of_listed(sizes, ids, (n - 1) as nat, t);
    }
}

} // verus!
