//! Sort-based MSMs that share their buffers.
//!
//! The fused operations run one MSM after the other in one session. The buffers are made once, as
//! large as the largest of the MSMs needs them, and used again for each.

use vstd::prelude::*;

use crate::arith::div_ceil;
use crate::multiexp::{SortedMsmParams, REDUCTION_CHUNK_SIZE};
use crate::session::{Cmd, DataView, Elem, HostData, Session};
use crate::sorted_msm::{
    launch_accumulate, launch_combine_chunks, launch_count, launch_decompose, launch_prefix_sum,
    launch_preprocess, launch_reduce_chunked, launch_reduce_windows, launch_scatter, BASES,
    BUCKET_RESULTS, CHUNK_SBP, CHUNK_SUM, COUNTS, DIGITS, DISPATCH_TABLE, FINAL_RESULT, KEYS,
    NONEMPTY_IDS, NUM_NONEMPTY, OFFSETS, PARTIAL_RESULTS, REDUCE_TABLE, SCATTER_OFFSETS, SORTED,
    VALUES, WINDOW_RESULTS,
};

verus! {

/// The number of threads per work group for steps on field elements.
pub const FIELD_WORK_SIZE: usize = 256;

/// The bits of a scalar of BN254.
pub const BN254_SCALAR_BITS: usize = 254;

/// The lengths of the buffers that the MSMs share.
#[derive(Copy, Clone, Debug, PartialEq, Eq, Structural)]
pub struct MsmSizes {
    /// Signed digits.
    pub digits: usize,
    /// Pairs of bucket and base.
    pub pairs: usize,
    /// Buckets.
    pub buckets: usize,
    /// Windows.
    pub windows: usize,
    /// Chunks of buckets.
    pub chunks: usize,
}

/// The larger of two lengths.
pub open spec fn larger(a: usize, b: nat) -> usize {
    crate::arith::max_of(a as int, b as int) as usize
}

impl MsmSizes {
    /// No room for anything.
    pub open spec fn zero() -> Self {
        MsmSizes { digits: 0, pairs: 0, buckets: 0, windows: 0, chunks: 0 }
    }

    /// Room for one more MSM.
    pub open spec fn with(self, p: SortedMsmParams) -> Self {
        MsmSizes {
            digits: larger(self.digits, p.total_pairs()),
            pairs: larger(self.pairs, p.total_pairs()),
            buckets: larger(self.buckets, p.total_buckets()),
            windows: larger(self.windows, p.num_windows as nat),
            chunks: larger(self.chunks, p.total_chunks()),
        }
    }

    /// Room for all of some MSMs.
    pub open spec fn of(ps: Seq<SortedMsmParams>) -> Self
        decreases ps.len(),
    {
        if ps.len() == 0 {
            MsmSizes::zero()
        } else {
            MsmSizes::of(ps.drop_last()).with(ps.last())
        }
    }

    /// Whether there is room for an MSM.
    pub open spec fn covers(self, p: SortedMsmParams) -> bool {
        &&& p.total_pairs() <= self.digits
        &&& p.total_pairs() <= self.pairs
        &&& p.total_buckets() <= self.buckets
        &&& p.num_windows <= self.windows
        &&& p.total_chunks() <= self.chunks
    }

    /// Room for one more MSM.
    pub fn grown(&self, p: SortedMsmParams) -> (r: Self)
        requires
            p.fits(),
        ensures
            r == self.with(p),
            r.covers(p),
    {
        proof {
            p.bounds();
        }
        let pairs: usize = p.n_bases * p.num_windows;
        let buckets: usize = p.num_windows * p.buckets_per_window;
        let chunks: usize = p.num_windows * div_ceil(p.buckets_per_window, REDUCTION_CHUNK_SIZE);
        MsmSizes {
            digits: if self.digits >= pairs {
                self.digits
            } else {
                pairs
            },
            pairs: if self.pairs >= pairs {
                self.pairs
            } else {
                pairs
            },
            buckets: if self.buckets >= buckets {
                self.buckets
            } else {
                buckets
            },
            windows: if self.windows >= p.num_windows {
                self.windows
            } else {
                p.num_windows
            },
            chunks: if self.chunks >= chunks {
                self.chunks
            } else {
                chunks
            },
        }
    }

    /// Room for no MSM.
    pub fn none() -> (r: Self)
        ensures
            r == MsmSizes::zero(),
    {
        MsmSizes { digits: 0, pairs: 0, buckets: 0, windows: 0, chunks: 0 }
    }
}

/// There is room for each of the MSMs that the buffers were sized for, and no buffer is longer
/// than the largest of them needs it.
pub proof fn sizes_cover_all(ps: Seq<SortedMsmParams>)
    requires
        forall|i: int| 0 <= i < ps.len() ==> (#[trigger] ps[i]).fits(),
    ensures
        forall|i: int| 0 <= i < ps.len() ==> MsmSizes::of(ps).covers(#[trigger] ps[i]),
        ps.len() > 0 ==> exists|i: int|
            0 <= i < ps.len() && MsmSizes::of(ps).pairs == (#[trigger] ps[i]).total_pairs(),
        ps.len() > 0 ==> exists|i: int|
            0 <= i < ps.len() && MsmSizes::of(ps).digits == (#[trigger] ps[i]).total_pairs(),
        ps.len() > 0 ==> exists|i: int|
            0 <= i < ps.len() && MsmSizes::of(ps).buckets == (#[trigger] ps[i]).total_buckets(),
        ps.len() > 0 ==> exists|i: int|
            0 <= i < ps.len() && MsmSizes::of(ps).windows == (#[trigger] ps[i]).num_windows,
        ps.len() > 0 ==> exists|i: int|
            0 <= i < ps.len() && MsmSizes::of(ps).chunks == (#[trigger] ps[i]).total_chunks(),
    decreases ps.len(),
{
    if ps.len() > 0 {
        let rest = ps.drop_last();
        let last = ps.len() - 1;
        assert forall|i: int| 0 <= i < rest.len() implies (#[trigger] rest[i]).fits() by {
            assert(rest[i] == ps[i]);
        }
        sizes_cover_all(rest);
        ps[last].bounds();
        let s = MsmSizes::of(ps);
        let t = MsmSizes::of(rest);
        assert forall|i: int| 0 <= i < ps.len() implies s.covers(#[trigger] ps[i]) by {
            if i < rest.len() {
                assert(rest[i] == ps[i]);
                assert(t.covers(rest[i]));
            }
        }
        if s.pairs != ps[last].total_pairs() {
            let i = choose|i: int|
                0 <= i < rest.len() && t.pairs == (#[trigger] rest[i]).total_pairs();
            assert(rest[i] == ps[i]);
        }
        if s.digits != ps[last].total_pairs() {
            let i = choose|i: int|
                0 <= i < rest.len() && t.digits == (#[trigger] rest[i]).total_pairs();
            assert(rest[i] == ps[i]);
        }
        if s.buckets != ps[last].total_buckets() {
            let i = choose|i: int|
                0 <= i < rest.len() && t.buckets == (#[trigger] rest[i]).total_buckets();
            assert(rest[i] == ps[i]);
        }
        if s.windows != ps[last].num_windows {
            let i = choose|i: int|
                0 <= i < rest.len() && t.windows == (#[trigger] rest[i]).num_windows;
            assert(rest[i] == ps[i]);
        }
        if s.chunks != ps[last].total_chunks() {
            let i = choose|i: int|
                0 <= i < rest.len() && t.chunks == (#[trigger] rest[i]).total_chunks();
            assert(rest[i] == ps[i]);
        }
    }
}

/// The buffers that the MSMs share.
pub open spec fn buffers_plan<F, B>(s: MsmSizes) -> Seq<Cmd<F, B>> {
    let chunks = crate::arith::max_of(s.chunks as int, 1) as nat;
    seq![
        Cmd::Alloc { slot: DIGITS, elem: Elem::Digit, len: s.digits as nat },
        Cmd::Alloc { slot: KEYS, elem: Elem::Word, len: s.pairs as nat },
        Cmd::Alloc { slot: VALUES, elem: Elem::Word, len: s.pairs as nat },
        Cmd::Alloc { slot: SORTED, elem: Elem::Word, len: s.pairs as nat },
        Cmd::Alloc { slot: COUNTS, elem: Elem::Word, len: s.buckets as nat },
        Cmd::Alloc { slot: OFFSETS, elem: Elem::Word, len: s.buckets as nat },
        Cmd::Alloc { slot: NONEMPTY_IDS, elem: Elem::Word, len: s.buckets as nat },
        Cmd::Alloc { slot: SCATTER_OFFSETS, elem: Elem::Word, len: s.buckets as nat },
        Cmd::Alloc { slot: NUM_NONEMPTY, elem: Elem::Word, len: 1 },
        Cmd::Upload { slot: BUCKET_RESULTS, data: DataView::Identities(s.buckets as nat) },
        Cmd::Upload { slot: WINDOW_RESULTS, data: DataView::Identities(s.windows as nat) },
        Cmd::Upload { slot: FINAL_RESULT, data: DataView::Identities(1) },
        Cmd::Alloc { slot: CHUNK_SBP, elem: Elem::Point, len: chunks },
        Cmd::Alloc { slot: CHUNK_SUM, elem: Elem::Point, len: chunks },
    ]
}

/// Whether a device has the buffers that the MSMs share, and room for the tables of large buckets.
pub open spec fn ready(b: crate::session::Buffers, s: MsmSizes) -> bool {
    &&& b.contains_key(BASES)
    &&& b.contains_key(DIGITS)
    &&& b.contains_key(KEYS)
    &&& b.contains_key(VALUES)
    &&& b.contains_key(SORTED)
    &&& b.contains_key(COUNTS)
    &&& b[COUNTS] == (Elem::Word, s.buckets as nat)
    &&& b.contains_key(OFFSETS)
    &&& b[OFFSETS] == (Elem::Word, s.buckets as nat)
    &&& b.contains_key(NONEMPTY_IDS)
    &&& b[NONEMPTY_IDS] == (Elem::Word, s.buckets as nat)
    &&& b.contains_key(SCATTER_OFFSETS)
    &&& b[SCATTER_OFFSETS] == (Elem::Word, s.buckets as nat)
    &&& b.contains_key(NUM_NONEMPTY)
    &&& b[NUM_NONEMPTY] == (Elem::Word, 1nat)
    &&& b.contains_key(BUCKET_RESULTS)
    &&& b[BUCKET_RESULTS] == (Elem::Point, s.buckets as nat)
    &&& b.contains_key(WINDOW_RESULTS)
    &&& b.contains_key(FINAL_RESULT)
    &&& b[FINAL_RESULT] == (Elem::Point, 1nat)
    &&& b.contains_key(CHUNK_SBP)
    &&& b.contains_key(CHUNK_SUM)
    &&& !b.contains_key(DISPATCH_TABLE)
    &&& !b.contains_key(PARTIAL_RESULTS)
    &&& !b.contains_key(REDUCE_TABLE)
}

/// Whether two devices differ at most in the buffers that the MSMs share.
pub open spec fn same_elsewhere(a: crate::session::Buffers, b: crate::session::Buffers) -> bool {
    forall|s: usize|
        #![trigger a.contains_key(s)]
        #![trigger b.contains_key(s)]
        (s < DIGITS || s > CHUNK_SUM) ==> a.contains_key(s) == b.contains_key(s) && (
        a.contains_key(s) ==> a[s] == b[s])
}

/// Make the buffers that the MSMs share.
pub(crate) fn create_buffers<'a, F, B>(session: &mut Session<'a, F, B>, s: MsmSizes)
    requires
        old(session).wf(),
        s.digits > 0,
        s.pairs > 0,
        s.buckets > 0,
        old(session).buffers().contains_key(BASES),
        !old(session).buffers().contains_key(DISPATCH_TABLE),
        !old(session).buffers().contains_key(PARTIAL_RESULTS),
        !old(session).buffers().contains_key(REDUCE_TABLE),
    ensures
        final(session).wf(),
        final(session)@ == old(session)@ + buffers_plan::<F, B>(s),
        ready(final(session).buffers(), s),
        same_elsewhere(old(session).buffers(), final(session).buffers()),
{
    let chunks: usize = if s.chunks >= 1 {
        s.chunks
    } else {
        1
    };
    session.create_buffer(DIGITS, Elem::Digit, s.digits);
    session.create_buffer(KEYS, Elem::Word, s.pairs);
    session.create_buffer(VALUES, Elem::Word, s.pairs);
    session.create_buffer(SORTED, Elem::Word, s.pairs);
    session.create_buffer(COUNTS, Elem::Word, s.buckets);
    session.create_buffer(OFFSETS, Elem::Word, s.buckets);
    session.create_buffer(NONEMPTY_IDS, Elem::Word, s.buckets);
    session.create_buffer(SCATTER_OFFSETS, Elem::Word, s.buckets);
    session.create_buffer(NUM_NONEMPTY, Elem::Word, 1);
    session.create_buffer_from(BUCKET_RESULTS, HostData::Identities(s.buckets));
    session.create_buffer_from(WINDOW_RESULTS, HostData::Identities(s.windows));
    session.create_buffer_from(FINAL_RESULT, HostData::Identities(1));
    session.create_buffer(CHUNK_SBP, Elem::Point, chunks);
    session.create_buffer(CHUNK_SUM, Elem::Point, chunks);
    assert(session@ =~~= old(session)@ + buffers_plan::<F, B>(s));
}

/// The first stage of an MSM: sort out how many pairs go into which bucket.
pub open spec fn msm_start_plan<F, B>(scalars: usize, p: SortedMsmParams, s: MsmSizes) -> Seq<
    Cmd<F, B>,
> {
    seq![
        crate::sorted_msm::preprocess(scalars, p, FIELD_WORK_SIZE),
        crate::sorted_msm::decompose(p),
        Cmd::Write {
            slot: COUNTS,
            data: DataView::Words(Seq::new(s.buckets as nat, |i: int| 0u32)),
        },
        crate::sorted_msm::count(p),
        crate::sorted_msm::prefix_sum(p),
        Cmd::Read { slot: NUM_NONEMPTY, elem: Elem::Word, len: 1 },
        Cmd::Read { slot: OFFSETS, elem: Elem::Word, len: s.buckets as nat },
    ]
}

/// The steps from the sums of the buckets to the result.
pub open spec fn msm_tail_plan<F, B>(p: SortedMsmParams) -> Seq<Cmd<F, B>> {
    seq![
        crate::sorted_msm::reduce_chunked(p),
        crate::sorted_msm::combine_chunks(p),
        Cmd::Write { slot: FINAL_RESULT, data: DataView::Identities(1) },
        crate::sorted_msm::reduce_windows(p),
        Cmd::Read { slot: FINAL_RESULT, elem: Elem::Point, len: 1 },
    ]
}

/// The stage after the offsets are known.
pub open spec fn msm_offsets_plan<F, B>(
    p: SortedMsmParams,
    s: MsmSizes,
    num_nonempty: nat,
    offsets: Seq<u32>,
) -> Seq<Cmd<F, B>> {
    seq![
        Cmd::Write { slot: SCATTER_OFFSETS, data: DataView::Words(offsets) },
        crate::sorted_msm::scatter(p),
        Cmd::Write { slot: BUCKET_RESULTS, data: DataView::Identities(s.buckets as nat) },
    ] + if num_nonempty > 0 {
        seq![
            Cmd::Read { slot: COUNTS, elem: Elem::Word, len: s.buckets as nat },
            Cmd::Read { slot: NONEMPTY_IDS, elem: Elem::Word, len: s.buckets as nat },
        ]
    } else {
        msm_tail_plan(p)
    }
}

/// The stage after the counts are known. Only the buckets of this MSM count.
pub open spec fn msm_counts_plan<F, B>(
    p: SortedMsmParams,
    num_nonempty: nat,
    counts: Seq<u32>,
    ids: Seq<u32>,
) -> Seq<Cmd<F, B>> {
    crate::sorted_msm::accumulate(
        counts.take(p.total_buckets() as int),
        ids.take(p.total_buckets() as int),
        num_nonempty,
    ) + msm_tail_plan(p)
}

pub(crate) fn msm_start<'a, F, B>(
    session: &mut Session<'a, F, B>,
    scalars: usize,
    p: SortedMsmParams,
    s: MsmSizes,
)
    requires
        old(session).wf(),
        p.fits(),
        ready(old(session).buffers(), s),
        old(session).buffers().contains_key(scalars),
    ensures
        final(session).wf(),
        final(session)@ == old(session)@ + msm_start_plan::<F, B>(scalars, p, s),
        final(session).buffers() == old(session).buffers(),
{
    launch_preprocess(session, scalars, p, FIELD_WORK_SIZE);
    launch_decompose(session, p);
    // The buffer is longer than this MSM needs; all of it is set to zero
    session.write_buffer(COUNTS, HostData::ZeroWords(s.buckets));
    launch_count(session, p);
    launch_prefix_sum(session, p);
    session.read_buffer(NUM_NONEMPTY, Elem::Word, 1);
    session.read_buffer(OFFSETS, Elem::Word, s.buckets);
    assert(session@ =~~= old(session)@ + msm_start_plan::<F, B>(scalars, p, s));
}

pub(crate) fn msm_tail<'a, F, B>(
    session: &mut Session<'a, F, B>,
    p: SortedMsmParams,
    Ghost(s): Ghost<MsmSizes>,
)
    requires
        old(session).wf(),
        p.fits(),
        ready(old(session).buffers(), s),
    ensures
        final(session).wf(),
        final(session)@ == old(session)@ + msm_tail_plan::<F, B>(p),
        final(session).buffers() == old(session).buffers(),
{
    launch_reduce_chunked(session, p);
    launch_combine_chunks(session, p);
    session.write_buffer(FINAL_RESULT, HostData::Identities(1));
    launch_reduce_windows(session, p);
    session.read_buffer(FINAL_RESULT, Elem::Point, 1);
    assert(session@ =~~= old(session)@ + msm_tail_plan::<F, B>(p));
}

/// Returns whether the counts are needed.
pub(crate) fn msm_offsets<'a, F, B>(
    session: &mut Session<'a, F, B>,
    p: SortedMsmParams,
    s: MsmSizes,
    num_nonempty: u32,
    offsets: Vec<u32>,
)
    requires
        old(session).wf(),
        p.fits(),
        ready(old(session).buffers(), s),
        offsets@.len() <= s.buckets,
    ensures
        final(session).wf(),
        final(session)@ == old(session)@ + msm_offsets_plan::<F, B>(
            p,
            s,
            num_nonempty as nat,
            offsets@,
        ),
        final(session).buffers() == old(session).buffers(),
{
    let ghost before = session@;
    session.write_buffer(SCATTER_OFFSETS, HostData::Words(offsets));
    launch_scatter(session, p);
    session.write_buffer(BUCKET_RESULTS, HostData::Identities(s.buckets));
    if num_nonempty > 0 {
        session.read_buffer(COUNTS, Elem::Word, s.buckets);
        session.read_buffer(NONEMPTY_IDS, Elem::Word, s.buckets);
    } else {
        msm_tail(session, p, Ghost(s));
    }
    assert(session@ =~~= before + msm_offsets_plan::<F, B>(
        p,
        s,
        num_nonempty as nat,
        offsets@,
    ));
}

pub(crate) fn msm_counts<'a, F, B>(
    session: &mut Session<'a, F, B>,
    p: SortedMsmParams,
    s: MsmSizes,
    num_nonempty: usize,
    counts: &[u32],
    ids: &[u32],
)
    requires
        old(session).wf(),
        p.fits(),
        ready(old(session).buffers(), s),
        counts@.len() >= p.total_buckets(),
        ids@.len() >= p.total_buckets(),
        crate::dispatch::listed(
            counts@.take(p.total_buckets() as int),
            ids@.take(p.total_buckets() as int),
            num_nonempty as nat,
        ),
    ensures
        final(session).wf(),
        final(session)@ == old(session)@ + msm_counts_plan::<F, B>(
            p,
            num_nonempty as nat,
            counts@,
            ids@,
        ),
        final(session).buffers() == old(session).buffers(),
{
    proof {
        p.bounds();
    }
    let total_buckets: usize = p.num_windows * p.buckets_per_window;
    let mine = vstd::slice::slice_subrange(counts, 0, total_buckets);
    let listed = vstd::slice::slice_subrange(ids, 0, total_buckets);
    assert(mine@ =~= counts@.take(total_buckets as int));
    assert(listed@ =~= ids@.take(total_buckets as int));
    let ghost b = session.buffers();
    assert(crate::sorted_msm::has(
        b,
        seq![BASES, SORTED, OFFSETS, COUNTS, NONEMPTY_IDS, BUCKET_RESULTS],
    ));
    launch_accumulate(session, mine, listed, num_nonempty);
    msm_tail(session, p, Ghost(s));
    assert(session@ =~= old(session)@ + msm_counts_plan::<F, B>(
        p,
        num_nonempty as nat,
        counts@,
        ids@,
    ));
}

/// No stage of an MSM moves bases or field elements between host and device: the bases and the
/// scalars are where they were put before.
pub proof fn msm_keeps_data<F, B>(
    scalars: usize,
    p: SortedMsmParams,
    s: MsmSizes,
    num_nonempty: nat,
    offsets: Seq<u32>,
    counts: Seq<u32>,
    ids: Seq<u32>,
)
    ensures
        crate::session::keeps_data(buffers_plan::<F, B>(s)),
        crate::session::keeps_data(msm_start_plan::<F, B>(scalars, p, s)),
        crate::session::keeps_data(msm_offsets_plan::<F, B>(p, s, num_nonempty, offsets)),
        crate::session::keeps_data(msm_counts_plan::<F, B>(p, num_nonempty, counts, ids)),
{
    let tail = msm_tail_plan::<F, B>(p);
    assert(crate::session::keeps_data(tail));
    let tb = p.total_buckets() as int;
    let sums = crate::sorted_msm::accumulate::<F, B>(counts.take(tb), ids.take(tb), num_nonempty);
    assert(crate::session::keeps_data(sums));
    assert forall|i: int| 0 <= i < (sums + tail).len() implies {
        &&& !crate::session::loads_bases(#[trigger] (sums + tail)[i])
        &&& !crate::session::loads_scalars((sums + tail)[i])
        &&& !crate::session::reads_scalars((sums + tail)[i])
    } by {
        if i < sums.len() {
            assert((sums + tail)[i] == sums[i]);
        } else {
            assert((sums + tail)[i] == tail[i - sums.len()]);
        }
    }
    let offsets_plan = msm_offsets_plan::<F, B>(p, s, num_nonempty, offsets);
    assert forall|i: int| 0 <= i < offsets_plan.len() implies {
        &&& !crate::session::loads_bases(#[trigger] offsets_plan[i])
        &&& !crate::session::loads_scalars(offsets_plan[i])
        &&& !crate::session::reads_scalars(offsets_plan[i])
    } by {
        if i >= 3 && num_nonempty == 0 {
            assert(offsets_plan[i] == tail[i - 3]);
        }
    }
}

} // verus!
