//! The steps of the sort-based MSM.
//!
//! Bases are sorted by the bucket that their digit puts them in. That gives sequential memory
//! reads, and every bucket is added up on its own. The functions here append the steps to a
//! session; the planners decide which buffers the steps work on.

use vstd::prelude::*;

use crate::arith::div_ceil;
use crate::dispatch::build_dispatch_tables;
use crate::multiexp::{SortedMsmParams, LOCAL_WORK_SIZE, REDUCTION_CHUNK_SIZE};
use crate::session::{Arg, Cmd, DataView, HostData, KernelId, Session};

verus! {

/// The bases.
pub const BASES: usize = 0;

/// The scalars, in standard form.
pub const SCALARS: usize = 1;

/// Signed digits of the scalars.
pub const DIGITS: usize = 2;

/// The bucket of each pair.
pub const KEYS: usize = 3;

/// The base of each pair, and its sign.
pub const VALUES: usize = 4;

/// The values, sorted by key.
pub const SORTED: usize = 5;

/// The number of pairs of each bucket.
pub const COUNTS: usize = 6;

/// Where each bucket starts among the sorted values.
pub const OFFSETS: usize = 7;

/// The buckets that are not empty.
pub const NONEMPTY_IDS: usize = 8;

/// A copy of the offsets that sorting counts up.
pub const SCATTER_OFFSETS: usize = 9;

/// How many buckets are not empty.
pub const NUM_NONEMPTY: usize = 10;

/// The sum of each bucket.
pub const BUCKET_RESULTS: usize = 11;

/// The sum of each window.
pub const WINDOW_RESULTS: usize = 12;

/// The sum.
pub const FINAL_RESULT: usize = 13;

/// Weighted sums of chunks of buckets.
pub const CHUNK_SBP: usize = 14;

/// Sums of chunks of buckets.
pub const CHUNK_SUM: usize = 15;

/// The chunks that large buckets are split into.
pub const DISPATCH_TABLE: usize = 16;

/// The sum of each chunk.
pub const PARTIAL_RESULTS: usize = 17;

/// Which chunks make up which bucket.
pub const REDUCE_TABLE: usize = 18;

/// The first slot that the steps of the MSM do not use.
pub const FIRST_FREE: usize = 19;

impl SortedMsmParams {
    /// The number of pairs of bucket and base.
    pub open spec fn total_pairs(&self) -> nat {
        (self.n_bases * self.num_windows) as nat
    }

    /// The number of buckets.
    pub open spec fn total_buckets(&self) -> nat {
        (self.num_windows * self.buckets_per_window) as nat
    }

    /// The number of chunks that the buckets of a window are reduced in.
    pub open spec fn chunks_per_window(&self) -> nat {
        crate::arith::ceil_div(
            self.buckets_per_window as int,
            REDUCTION_CHUNK_SIZE as int,
        ) as nat
    }

    /// The number of chunks of all windows.
    pub open spec fn total_chunks(&self) -> nat {
        self.num_windows as nat * self.chunks_per_window()
    }

    /// The parameters describe an MSM of at least one base with scalars of at most 256 bits, whose
    /// pairs can be counted.
    pub open spec fn fits(&self) -> bool {
        &&& self.wf()
        &&& self.n_bases > 0
        &&& self.effective_bits <= 256
        &&& self.total_pairs() <= usize::MAX
    }

    /// The numbers that follow from the parameters are positive and bounded.
    pub proof fn bounds(&self)
        requires
            self.fits(),
        ensures
            1 <= self.num_windows <= 129,
            2 <= self.buckets_per_window <= 32768,
            1 <= self.total_pairs(),
            2 <= self.total_buckets() <= 129 * 32768,
            1 <= self.chunks_per_window() <= 128,
            1 <= self.total_chunks() <= 129 * 128,
    {
        let nw = self.num_windows as int;
        let ws = self.window_size as int;
        let e = self.effective_bits as int;
        let b = self.buckets_per_window as int;
        let n = self.n_bases as int;
        crate::arith::ceil_div_least(e + 1, ws);
        assert(1 <= nw <= 129) by (nonlinear_arith)
            requires
                (nw - 1) * ws < e + 1,
                nw * ws >= e + 1,
                0 <= e <= 256,
                ws >= 2,
        ;
        vstd::arithmetic::power2::lemma2_to64();
        if ws < 16 {
            vstd::arithmetic::power2::lemma_pow2_strictly_increases((ws - 1) as nat, 15);
        }
        if ws > 2 {
            vstd::arithmetic::power2::lemma_pow2_strictly_increases(1, (ws - 1) as nat);
        }
        assert(n * nw >= 1) by (nonlinear_arith)
            requires
                n >= 1,
                nw >= 1,
        ;
        assert(2 <= nw * b <= 129 * 32768) by (nonlinear_arith)
            requires
                1 <= nw <= 129,
                2 <= b <= 32768,
        ;
        crate::arith::ceil_div_least(b, REDUCTION_CHUNK_SIZE as int);
        let k = self.chunks_per_window() as int;
        assert(1 <= nw * k <= 129 * 128) by (nonlinear_arith)
            requires
                1 <= nw <= 129,
                1 <= k <= 128,
        ;
    }
}

/// The number of thread groups of `local` threads for `n` items.
pub open spec fn groups(n: nat, local: usize) -> nat {
    crate::arith::ceil_div(n as int, local as int) as nat
}

/// Split the scalars into signed digits.
pub open spec fn preprocess<F, B>(scalars: usize, p: SortedMsmParams, local: usize) -> Cmd<F, B> {
    Cmd::Launch {
        kernel: KernelId::PreprocessSignedDigits,
        global: groups(p.n_bases as nat, local),
        local: local as nat,
        args: seq![
            Arg::Buffer(scalars),
            Arg::Buffer(DIGITS),
            Arg::Word(p.n_bases as u32),
            Arg::Word(p.num_windows as u32),
            Arg::Word(p.window_size as u32),
        ],
    }
}

/// Turn digits into pairs.
pub open spec fn decompose<F, B>(p: SortedMsmParams) -> Cmd<F, B> {
    Cmd::Launch {
        kernel: KernelId::DecomposeToPairs,
        global: groups(p.total_pairs(), LOCAL_WORK_SIZE),
        local: LOCAL_WORK_SIZE as nat,
        args: seq![
            Arg::Buffer(DIGITS),
            Arg::Buffer(KEYS),
            Arg::Buffer(VALUES),
            Arg::Word(p.n_bases as u32),
            Arg::Word(p.num_windows as u32),
            Arg::Word(p.buckets_per_window as u32),
        ],
    }
}

/// Count the pairs of each bucket.
pub open spec fn count<F, B>(p: SortedMsmParams) -> Cmd<F, B> {
    Cmd::Launch {
        kernel: KernelId::CountBuckets,
        global: groups(p.total_pairs(), LOCAL_WORK_SIZE),
        local: LOCAL_WORK_SIZE as nat,
        args: seq![Arg::Buffer(KEYS), Arg::Buffer(COUNTS), Arg::Word(p.total_pairs() as u32)],
    }
}

/// Turn counts into offsets and list the buckets that are not empty.
pub open spec fn prefix_sum<F, B>(p: SortedMsmParams) -> Cmd<F, B> {
    Cmd::Launch {
        kernel: KernelId::PrefixSum,
        global: 1,
        local: 1,
        args: seq![
            Arg::Buffer(COUNTS),
            Arg::Buffer(OFFSETS),
            Arg::Buffer(NONEMPTY_IDS),
            Arg::Buffer(NUM_NONEMPTY),
            Arg::Word(p.total_buckets() as u32),
        ],
    }
}

/// Sort the pairs.
pub open spec fn scatter<F, B>(p: SortedMsmParams) -> Cmd<F, B> {
    Cmd::Launch {
        kernel: KernelId::ScatterToSorted,
        global: groups(p.total_pairs(), LOCAL_WORK_SIZE),
        local: LOCAL_WORK_SIZE as nat,
        args: seq![
            Arg::Buffer(KEYS),
            Arg::Buffer(VALUES),
            Arg::Buffer(SCATTER_OFFSETS),
            Arg::Buffer(SORTED),
            Arg::Word(p.total_pairs() as u32),
        ],
    }
}

/// Add up the buckets that are not empty, given what is in them.
///
/// If no bucket is large, every bucket gets one thread. Otherwise the buckets are split into
/// chunks, every chunk gets one thread, and the chunks of each bucket are added up afterwards.
pub open spec fn accumulate<F, B>(
    counts: Seq<u32>,
    ids: Seq<u32>,
    num_nonempty: nat,
) -> Seq<Cmd<F, B>> {
    let chunks = crate::dispatch::all_chunks(counts, ids, num_nonempty);
    if chunks.len() == num_nonempty {
        seq![
            Cmd::Launch {
                kernel: KernelId::AccumulateSortedBuckets,
                global: groups(num_nonempty, LOCAL_WORK_SIZE),
                local: LOCAL_WORK_SIZE as nat,
                args: seq![
                    Arg::Buffer(BASES),
                    Arg::Buffer(SORTED),
                    Arg::Buffer(OFFSETS),
                    Arg::Buffer(COUNTS),
                    Arg::Buffer(NONEMPTY_IDS),
                    Arg::Buffer(BUCKET_RESULTS),
                    Arg::Word(num_nonempty as u32),
                ],
            },
        ]
    } else {
        seq![
            Cmd::Upload {
                slot: DISPATCH_TABLE,
                data: DataView::Words(crate::dispatch::chunk_words(chunks)),
            },
            Cmd::Upload { slot: PARTIAL_RESULTS, data: DataView::Identities(chunks.len()) },
            Cmd::Launch {
                kernel: KernelId::AccumulateChunked,
                global: groups(chunks.len(), LOCAL_WORK_SIZE),
                local: LOCAL_WORK_SIZE as nat,
                args: seq![
                    Arg::Buffer(BASES),
                    Arg::Buffer(SORTED),
                    Arg::Buffer(OFFSETS),
                    Arg::Buffer(DISPATCH_TABLE),
                    Arg::Buffer(PARTIAL_RESULTS),
                    Arg::Word(chunks.len() as u32),
                ],
            },
            Cmd::Upload {
                slot: REDUCE_TABLE,
                data: DataView::Words(
                    crate::dispatch::reduce_words(counts, ids, num_nonempty),
                ),
            },
            Cmd::Launch {
                kernel: KernelId::ReducePartialBuckets,
                global: groups(num_nonempty, LOCAL_WORK_SIZE),
                local: LOCAL_WORK_SIZE as nat,
                args: seq![
                    Arg::Buffer(PARTIAL_RESULTS),
                    Arg::Buffer(NONEMPTY_IDS),
                    Arg::Buffer(REDUCE_TABLE),
                    Arg::Buffer(BUCKET_RESULTS),
                    Arg::Word(num_nonempty as u32),
                ],
            },
            Cmd::Free { slot: REDUCE_TABLE },
            Cmd::Free { slot: PARTIAL_RESULTS },
            Cmd::Free { slot: DISPATCH_TABLE },
        ]
    }
}

/// Reduce the buckets of each window in chunks.
pub open spec fn reduce_chunked<F, B>(p: SortedMsmParams) -> Cmd<F, B> {
    Cmd::Launch {
        kernel: KernelId::ReduceBucketsChunked,
        global: p.total_chunks(),
        local: REDUCTION_CHUNK_SIZE as nat,
        args: seq![
            Arg::Buffer(BUCKET_RESULTS),
            Arg::Buffer(CHUNK_SBP),
            Arg::Buffer(CHUNK_SUM),
            Arg::Word(p.buckets_per_window as u32),
            Arg::Word(p.chunks_per_window() as u32),
            Arg::LocalPoints(REDUCTION_CHUNK_SIZE),
        ],
    }
}

/// Combine the chunks of each window.
pub open spec fn combine_chunks<F, B>(p: SortedMsmParams) -> Cmd<F, B> {
    Cmd::Launch {
        kernel: KernelId::CombineChunksToWindows,
        global: groups(p.num_windows as nat, LOCAL_WORK_SIZE),
        local: LOCAL_WORK_SIZE as nat,
        args: seq![
            Arg::Buffer(CHUNK_SBP),
            Arg::Buffer(CHUNK_SUM),
            Arg::Buffer(WINDOW_RESULTS),
            Arg::Word(p.num_windows as u32),
            Arg::Word(p.chunks_per_window() as u32),
            Arg::Word(REDUCTION_CHUNK_SIZE as u32),
        ],
    }
}

/// Combine the windows.
pub open spec fn reduce_windows<F, B>(p: SortedMsmParams) -> Cmd<F, B> {
    Cmd::Launch {
        kernel: KernelId::ReduceWindows,
        global: 1,
        local: 1,
        args: seq![
            Arg::Buffer(WINDOW_RESULTS),
            Arg::Buffer(FINAL_RESULT),
            Arg::Word(p.num_windows as u32),
            Arg::Word(p.window_size as u32),
            Arg::Word(p.effective_bits as u32),
        ],
    }
}

/// Whether a device has all the buffers in some slots.
pub open spec fn has(buffers: crate::session::Buffers, slots: Seq<usize>) -> bool {
    forall|i: int| 0 <= i < slots.len() ==> buffers.contains_key(#[trigger] slots[i])
}

pub(crate) fn launch_preprocess<'a, F, B>(
    session: &mut Session<'a, F, B>,
    scalars: usize,
    p: SortedMsmParams,
    local: usize,
)
    requires
        old(session).wf(),
        old(session).buffers().contains_key(scalars),
        old(session).buffers().contains_key(DIGITS),
        local > 0,
    ensures
        final(session).wf(),
        final(session)@ == old(session)@.push(preprocess::<F, B>(scalars, p, local)),
        final(session).buffers() == old(session).buffers(),
{
    session.launch(
        KernelId::PreprocessSignedDigits,
        div_ceil(p.n_bases, local),
        local,
        vec![
            Arg::Buffer(scalars),
            Arg::Buffer(DIGITS),
            Arg::Word(p.n_bases as u32),
            Arg::Word(p.num_windows as u32),
            Arg::Word(p.window_size as u32),
        ],
    );
    proof {
        crate::arith::ceil_div_least(p.n_bases as int, local as int);
        assert(session@.last() =~~= preprocess::<F, B>(scalars, p, local));
    }
}

pub(crate) fn launch_decompose<'a, F, B>(session: &mut Session<'a, F, B>, p: SortedMsmParams)
    requires
        p.fits(),
        old(session).wf(),
        old(session).buffers().contains_key(DIGITS),
        old(session).buffers().contains_key(KEYS),
        old(session).buffers().contains_key(VALUES),
    ensures
        final(session).wf(),
        final(session)@ == old(session)@.push(decompose::<F, B>(p)),
        final(session).buffers() == old(session).buffers(),
{
    session.launch(
        KernelId::DecomposeToPairs,
        div_ceil(p.n_bases * p.num_windows, LOCAL_WORK_SIZE),
        LOCAL_WORK_SIZE,
        vec![
            Arg::Buffer(DIGITS),
            Arg::Buffer(KEYS),
            Arg::Buffer(VALUES),
            Arg::Word(p.n_bases as u32),
            Arg::Word(p.num_windows as u32),
            Arg::Word(p.buckets_per_window as u32),
        ],
    );
    assert(session@.last() =~~= decompose::<F, B>(p));
}

pub(crate) fn launch_count<'a, F, B>(session: &mut Session<'a, F, B>, p: SortedMsmParams)
    requires
        p.fits(),
        old(session).wf(),
        old(session).buffers().contains_key(KEYS),
        old(session).buffers().contains_key(COUNTS),
    ensures
        final(session).wf(),
        final(session)@ == old(session)@.push(count::<F, B>(p)),
        final(session).buffers() == old(session).buffers(),
{
    let total_pairs: usize = p.n_bases * p.num_windows;
    session.launch(
        KernelId::CountBuckets,
        div_ceil(total_pairs, LOCAL_WORK_SIZE),
        LOCAL_WORK_SIZE,
        vec![Arg::Buffer(KEYS), Arg::Buffer(COUNTS), Arg::Word(total_pairs as u32)],
    );
    assert(session@.last() =~~= count::<F, B>(p));
}

pub(crate) fn launch_prefix_sum<'a, F, B>(session: &mut Session<'a, F, B>, p: SortedMsmParams)
    requires
        p.fits(),
        old(session).wf(),
        old(session).buffers().contains_key(COUNTS),
        old(session).buffers().contains_key(OFFSETS),
        old(session).buffers().contains_key(NONEMPTY_IDS),
        old(session).buffers().contains_key(NUM_NONEMPTY),
    ensures
        final(session).wf(),
        final(session)@ == old(session)@.push(prefix_sum::<F, B>(p)),
        final(session).buffers() == old(session).buffers(),
{
    proof {
        p.bounds();
    }
    let total_buckets: usize = p.num_windows * p.buckets_per_window;
    session.launch(
        KernelId::PrefixSum,
        1,
        1,
        vec![
            Arg::Buffer(COUNTS),
            Arg::Buffer(OFFSETS),
            Arg::Buffer(NONEMPTY_IDS),
            Arg::Buffer(NUM_NONEMPTY),
            Arg::Word(total_buckets as u32),
        ],
    );
    assert(session@.last() =~~= prefix_sum::<F, B>(p));
}

pub(crate) fn launch_scatter<'a, F, B>(session: &mut Session<'a, F, B>, p: SortedMsmParams)
    requires
        p.fits(),
        old(session).wf(),
        old(session).buffers().contains_key(KEYS),
        old(session).buffers().contains_key(VALUES),
        old(session).buffers().contains_key(SCATTER_OFFSETS),
        old(session).buffers().contains_key(SORTED),
    ensures
        final(session).wf(),
        final(session)@ == old(session)@.push(scatter::<F, B>(p)),
        final(session).buffers() == old(session).buffers(),
{
    let total_pairs: usize = p.n_bases * p.num_windows;
    session.launch(
        KernelId::ScatterToSorted,
        div_ceil(total_pairs, LOCAL_WORK_SIZE),
        LOCAL_WORK_SIZE,
        vec![
            Arg::Buffer(KEYS),
            Arg::Buffer(VALUES),
            Arg::Buffer(SCATTER_OFFSETS),
            Arg::Buffer(SORTED),
            Arg::Word(total_pairs as u32),
        ],
    );
    assert(session@.last() =~~= scatter::<F, B>(p));
}

pub(crate) fn launch_accumulate<'a, F, B>(
    session: &mut Session<'a, F, B>,
    counts: &[u32],
    ids: &[u32],
    num_nonempty: usize,
)
    requires
        crate::dispatch::listed(counts@, ids@, num_nonempty as nat),
        old(session).wf(),
        has(
            old(session).buffers(),
            seq![BASES, SORTED, OFFSETS, COUNTS, NONEMPTY_IDS, BUCKET_RESULTS],
        ),
        !old(session).buffers().contains_key(DISPATCH_TABLE),
        !old(session).buffers().contains_key(PARTIAL_RESULTS),
        !old(session).buffers().contains_key(REDUCE_TABLE),
    ensures
        final(session).wf(),
        final(session)@ == old(session)@ + accumulate::<F, B>(counts@, ids@, num_nonempty as nat),
        final(session).buffers() == old(session).buffers(),
{
    let ghost before = session@;
    let ghost slots = seq![BASES, SORTED, OFFSETS, COUNTS, NONEMPTY_IDS, BUCKET_RESULTS];
    assert(slots[0] == BASES && slots[1] == SORTED && slots[2] == OFFSETS && slots[3] == COUNTS
        && slots[4] == NONEMPTY_IDS && slots[5] == BUCKET_RESULTS);
    let (dispatch_table, reduce_table, num_dispatches) = build_dispatch_tables(
        counts,
        ids,
        num_nonempty,
    );
    if num_dispatches == num_nonempty {
        // No large buckets: use simple 1-thread-per-bucket kernel (faster for small buckets)
        session.launch(
            KernelId::AccumulateSortedBuckets,
            div_ceil(num_nonempty, LOCAL_WORK_SIZE),
            LOCAL_WORK_SIZE,
            vec![
                Arg::Buffer(BASES),
                Arg::Buffer(SORTED),
                Arg::Buffer(OFFSETS),
                Arg::Buffer(COUNTS),
                Arg::Buffer(NONEMPTY_IDS),
                Arg::Buffer(BUCKET_RESULTS),
                Arg::Word(num_nonempty as u32),
            ],
        );
        assert(session@ =~~= before + accumulate::<F, B>(counts@, ids@, num_nonempty as nat));
    } else {
        // Large buckets detected: use chunked accumulation
        session.create_buffer_from(DISPATCH_TABLE, HostData::Words(dispatch_table));
        session.create_buffer_from(PARTIAL_RESULTS, HostData::Identities(num_dispatches));
        session.launch(
            KernelId::AccumulateChunked,
            div_ceil(num_dispatches, LOCAL_WORK_SIZE),
            LOCAL_WORK_SIZE,
            vec![
                Arg::Buffer(BASES),
                Arg::Buffer(SORTED),
                Arg::Buffer(OFFSETS),
                Arg::Buffer(DISPATCH_TABLE),
                Arg::Buffer(PARTIAL_RESULTS),
                Arg::Word(num_dispatches as u32),
            ],
        );
        session.create_buffer_from(REDUCE_TABLE, HostData::Words(reduce_table));
        session.launch(
            KernelId::ReducePartialBuckets,
            div_ceil(num_nonempty, LOCAL_WORK_SIZE),
            LOCAL_WORK_SIZE,
            vec![
                Arg::Buffer(PARTIAL_RESULTS),
                Arg::Buffer(NONEMPTY_IDS),
                Arg::Buffer(REDUCE_TABLE),
                Arg::Buffer(BUCKET_RESULTS),
                Arg::Word(num_nonempty as u32),
            ],
        );
        session.free(REDUCE_TABLE);
        session.free(PARTIAL_RESULTS);
        session.free(DISPATCH_TABLE);
        assert(session@ =~~= before + accumulate::<F, B>(counts@, ids@, num_nonempty as nat));
        assert(session.buffers() =~= old(session).buffers());
    }
}

pub(crate) fn launch_reduce_chunked<'a, F, B>(session: &mut Session<'a, F, B>, p: SortedMsmParams)
    requires
        p.fits(),
        old(session).wf(),
        old(session).buffers().contains_key(BUCKET_RESULTS),
        old(session).buffers().contains_key(CHUNK_SBP),
        old(session).buffers().contains_key(CHUNK_SUM),
    ensures
        final(session).wf(),
        final(session)@ == old(session)@.push(reduce_chunked::<F, B>(p)),
        final(session).buffers() == old(session).buffers(),
{
    proof {
        p.bounds();
    }
    let num_chunks_per_window: usize = div_ceil(p.buckets_per_window, REDUCTION_CHUNK_SIZE);
    session.launch(
        KernelId::ReduceBucketsChunked,
        p.num_windows * num_chunks_per_window,
        REDUCTION_CHUNK_SIZE,
        vec![
            Arg::Buffer(BUCKET_RESULTS),
            Arg::Buffer(CHUNK_SBP),
            Arg::Buffer(CHUNK_SUM),
            Arg::Word(p.buckets_per_window as u32),
            Arg::Word(num_chunks_per_window as u32),
            Arg::LocalPoints(REDUCTION_CHUNK_SIZE),
        ],
    );
    assert(session@.last() =~~= reduce_chunked::<F, B>(p));
}

pub(crate) fn launch_combine_chunks<'a, F, B>(session: &mut Session<'a, F, B>, p: SortedMsmParams)
    requires
        p.fits(),
        old(session).wf(),
        old(session).buffers().contains_key(CHUNK_SBP),
        old(session).buffers().contains_key(CHUNK_SUM),
        old(session).buffers().contains_key(WINDOW_RESULTS),
    ensures
        final(session).wf(),
        final(session)@ == old(session)@.push(combine_chunks::<F, B>(p)),
        final(session).buffers() == old(session).buffers(),
{
    proof {
        p.bounds();
    }
    let num_chunks_per_window: usize = div_ceil(p.buckets_per_window, REDUCTION_CHUNK_SIZE);
    session.launch(
        KernelId::CombineChunksToWindows,
        div_ceil(p.num_windows, LOCAL_WORK_SIZE),
        LOCAL_WORK_SIZE,
        vec![
            Arg::Buffer(CHUNK_SBP),
            Arg::Buffer(CHUNK_SUM),
            Arg::Buffer(WINDOW_RESULTS),
            Arg::Word(p.num_windows as u32),
            Arg::Word(num_chunks_per_window as u32),
            Arg::Word(REDUCTION_CHUNK_SIZE as u32),
        ],
    );
    assert(session@.last() =~~= combine_chunks::<F, B>(p));
}

pub(crate) fn launch_reduce_windows<'a, F, B>(session: &mut Session<'a, F, B>, p: SortedMsmParams)
    requires
        old(session).wf(),
        old(session).buffers().contains_key(WINDOW_RESULTS),
        old(session).buffers().contains_key(FINAL_RESULT),
    ensures
        final(session).wf(),
        final(session)@ == old(session)@.push(reduce_windows::<F, B>(p)),
        final(session).buffers() == old(session).buffers(),
{
    session.launch(
        KernelId::ReduceWindows,
        1,
        1,
        vec![
            Arg::Buffer(WINDOW_RESULTS),
            Arg::Buffer(FINAL_RESULT),
            Arg::Word(p.num_windows as u32),
            Arg::Word(p.window_size as u32),
            Arg::Word(p.effective_bits as u32),
        ],
    );
    assert(session@.last() =~~= reduce_windows::<F, B>(p));
}

} // verus!
