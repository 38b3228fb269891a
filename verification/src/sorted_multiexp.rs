//! Multiexponentiation with sort-based bucket accumulation on one device.
//!
//! What is launched depends on what the device reports on the way, so the session is planned in
//! stages: a stage ends where the host has to read, and the next one is planned from what it read.

use vstd::prelude::*;

use crate::curve::GpuAffine;
use crate::error::{EcError, EcResult};
use crate::multiexp::{compute_max_scalar_bits, SortedMsmParams, LOCAL_WORK_SIZE};
use crate::session::{Cmd, DataView, Elem, HostData, Session};
use crate::single_multiexp::{convert_exponents, SingleMultiexpKernel};
use crate::sorted_msm::{
    launch_accumulate, launch_combine_chunks, launch_count, launch_decompose, launch_prefix_sum,
    launch_preprocess, launch_reduce_chunked, launch_reduce_windows, launch_scatter, BASES,
    BUCKET_RESULTS, CHUNK_SBP, CHUNK_SUM, COUNTS, DIGITS, DISPATCH_TABLE, FINAL_RESULT, KEYS,
    NONEMPTY_IDS, NUM_NONEMPTY, OFFSETS, PARTIAL_RESULTS, REDUCE_TABLE, SCALARS, SCATTER_OFFSETS,
    SORTED, VALUES, WINDOW_RESULTS,
};

verus! {

/// What a sort-based MSM waits for.
#[derive(Copy, Clone, Debug, PartialEq, Eq, Structural)]
pub enum MsmStage {
    /// The number of buckets that are not empty, and the offsets of the buckets.
    Offsets,
    /// The counts of the buckets and the list of those that are not empty.
    Counts {
        /// How many buckets are not empty.
        num_nonempty: usize,
    },
    /// The sum.
    Result,
}

/// A sort-based multiexponentiation that is under way.
pub struct SortedMultiexp<'a, G: GpuAffine> {
    /// What the device has to do, up to where the next data is waited for.
    session: Session<'a, G::ScalarField, G::GpuRepr>,
    /// How the work is split.
    params: SortedMsmParams,
    /// What is waited for.
    stage: MsmStage,
}

/// The first stage: sort out how many pairs go into which bucket.
pub open spec fn start_plan<F, B>(
    bases: Seq<B>,
    exponents: Seq<Seq<u8>>,
    p: SortedMsmParams,
) -> Seq<Cmd<F, B>> {
    seq![
        Cmd::Upload { slot: BASES, data: DataView::Bases(bases) },
        Cmd::Upload { slot: SCALARS, data: DataView::Exponents(exponents) },
        Cmd::Alloc { slot: DIGITS, elem: Elem::Digit, len: p.total_pairs() },
        crate::sorted_msm::preprocess(SCALARS, p, LOCAL_WORK_SIZE),
        Cmd::Alloc { slot: KEYS, elem: Elem::Word, len: p.total_pairs() },
        Cmd::Alloc { slot: VALUES, elem: Elem::Word, len: p.total_pairs() },
        crate::sorted_msm::decompose(p),
        Cmd::Upload {
            slot: COUNTS,
            data: DataView::Words(Seq::new(p.total_buckets(), |i: int| 0u32)),
        },
        crate::sorted_msm::count(p),
        Cmd::Alloc { slot: OFFSETS, elem: Elem::Word, len: p.total_buckets() },
        Cmd::Alloc { slot: NONEMPTY_IDS, elem: Elem::Word, len: p.total_buckets() },
        Cmd::Alloc { slot: NUM_NONEMPTY, elem: Elem::Word, len: 1 },
        crate::sorted_msm::prefix_sum(p),
        Cmd::Read { slot: NUM_NONEMPTY, elem: Elem::Word, len: 1 },
        Cmd::Read { slot: OFFSETS, elem: Elem::Word, len: p.total_buckets() },
    ]
}

/// The steps from the sums of the buckets to the result.
pub open spec fn tail_plan<F, B>(p: SortedMsmParams) -> Seq<Cmd<F, B>> {
    let chunks = crate::arith::max_of(p.total_chunks() as int, 1) as nat;
    seq![
        Cmd::Alloc { slot: CHUNK_SBP, elem: Elem::Point, len: chunks },
        Cmd::Alloc { slot: CHUNK_SUM, elem: Elem::Point, len: chunks },
        crate::sorted_msm::reduce_chunked(p),
        Cmd::Upload { slot: WINDOW_RESULTS, data: DataView::Identities(p.num_windows as nat) },
        crate::sorted_msm::combine_chunks(p),
        Cmd::Upload { slot: FINAL_RESULT, data: DataView::Identities(1) },
        crate::sorted_msm::reduce_windows(p),
        Cmd::Read { slot: FINAL_RESULT, elem: Elem::Point, len: 1 },
    ]
}

/// The stage after the offsets are known.
pub open spec fn offsets_plan<F, B>(
    p: SortedMsmParams,
    num_nonempty: nat,
    offsets: Seq<u32>,
) -> Seq<Cmd<F, B>> {
    seq![
        Cmd::Upload { slot: SCATTER_OFFSETS, data: DataView::Words(offsets) },
        Cmd::Alloc { slot: SORTED, elem: Elem::Word, len: p.total_pairs() },
        crate::sorted_msm::scatter(p),
        Cmd::Upload { slot: BUCKET_RESULTS, data: DataView::Identities(p.total_buckets()) },
    ] + if num_nonempty > 0 {
        seq![
            Cmd::Read { slot: COUNTS, elem: Elem::Word, len: p.total_buckets() },
            Cmd::Read { slot: NONEMPTY_IDS, elem: Elem::Word, len: p.total_buckets() },
        ]
    } else {
        tail_plan(p)
    }
}

/// The stage after the counts are known.
pub open spec fn counts_plan<F, B>(
    p: SortedMsmParams,
    num_nonempty: nat,
    counts: Seq<u32>,
    ids: Seq<u32>,
) -> Seq<Cmd<F, B>> {
    crate::sorted_msm::accumulate(counts, ids, num_nonempty) + tail_plan(p)
}

/// Whether a device has the buffers that the stages after the first one work on.
pub open spec fn sorting_done(b: crate::session::Buffers, p: SortedMsmParams) -> bool {
    &&& b.contains_key(BASES)
    &&& b.contains_key(KEYS)
    &&& b.contains_key(VALUES)
    &&& b.contains_key(OFFSETS)
    &&& b.contains_key(COUNTS)
    &&& b[COUNTS] == (Elem::Word, p.total_buckets())
    &&& b.contains_key(NONEMPTY_IDS)
    &&& b[NONEMPTY_IDS] == (Elem::Word, p.total_buckets())
    &&& !b.contains_key(DISPATCH_TABLE)
    &&& !b.contains_key(PARTIAL_RESULTS)
    &&& !b.contains_key(REDUCE_TABLE)
}

impl<'a, G: GpuAffine> SortedMultiexp<'a, G> {
    /// What the device has to do, up to where the next data is waited for.
    pub closed spec fn spec_session(&self) -> Session<'a, G::ScalarField, G::GpuRepr> {
        self.session
    }

    /// How the work is split.
    pub closed spec fn spec_params(&self) -> SortedMsmParams {
        self.params
    }

    /// What is waited for.
    pub closed spec fn spec_stage(&self) -> MsmStage {
        self.stage
    }

    /// What the device has to do, up to where the next data is waited for.
    pub fn session(&self) -> (r: &Session<'a, G::ScalarField, G::GpuRepr>)
        ensures
            *r == self.spec_session(),
    {
        &self.session
    }

    /// What is waited for.
    pub fn stage(&self) -> (r: MsmStage)
        ensures
            r == self.spec_stage(),
    {
        self.stage
    }

    /// How the work is split.
    pub fn params(&self) -> (r: SortedMsmParams)
        ensures
            r == self.spec_params(),
    {
        self.params
    }

    /// The session can be run, and holds what the next stage needs.
    pub open spec fn wf(&self) -> bool {
        &&& self.spec_session().wf()
        &&& self.spec_params().fits()
        &&& self.spec_stage() is Offsets ==> sorting_done(self.spec_session().buffers(), self.spec_params())
        &&& self.spec_stage() is Counts ==> sorting_done(self.spec_session().buffers(), self.spec_params())
            && self.spec_session().buffers().contains_key(SORTED)
            && self.spec_session().buffers().contains_key(BUCKET_RESULTS)
    }

    fn tail(&mut self)
        requires
            old(self).session.wf(),
            old(self).params.fits(),
            old(self).session.buffers().contains_key(BUCKET_RESULTS),
        ensures
            final(self).wf(),
            final(self).stage == MsmStage::Result,
            final(self).params == old(self).params,
            final(self).session@ == old(self).session@ + tail_plan::<G::ScalarField, G::GpuRepr>(
                old(self).params,
            ),
    {
        let p = self.params;
        proof {
            p.bounds();
        }
        let chunks_per_window: usize = crate::arith::div_ceil(
            p.buckets_per_window,
            crate::multiexp::REDUCTION_CHUNK_SIZE,
        );
        let total_chunks: usize = p.num_windows * chunks_per_window;
        let chunks: usize = if total_chunks >= 1 {
            total_chunks
        } else {
            1
        };
        self.session.create_buffer(CHUNK_SBP, Elem::Point, chunks);
        self.session.create_buffer(CHUNK_SUM, Elem::Point, chunks);
        launch_reduce_chunked(&mut self.session, p);
        self.session.create_buffer_from(WINDOW_RESULTS, HostData::Identities(p.num_windows));
        launch_combine_chunks(&mut self.session, p);
        self.session.create_buffer_from(FINAL_RESULT, HostData::Identities(1));
        launch_reduce_windows(&mut self.session, p);
        self.session.read_buffer(FINAL_RESULT, Elem::Point, 1);
        self.stage = MsmStage::Result;
        assert(self.session@ =~~= old(self).session@ + tail_plan::<G::ScalarField, G::GpuRepr>(p));
    }

    /// Go on with the number of buckets that are not empty, and the offsets of the buckets.
    pub fn resume_with_offsets(&mut self, num_nonempty: u32, offsets: Vec<u32>)
        requires
            old(self).wf(),
            old(self).spec_stage() == MsmStage::Offsets,
        ensures
            final(self).wf(),
            final(self).spec_params() == old(self).spec_params(),
            final(self).spec_stage() == (if num_nonempty > 0 {
                MsmStage::Counts { num_nonempty: num_nonempty as usize }
            } else {
                MsmStage::Result
            }),
            final(self).spec_session()@ == old(self).spec_session()@ + offsets_plan::<
                G::ScalarField,
                G::GpuRepr,
            >(old(self).spec_params(), num_nonempty as nat, offsets@),
    {
        let p = self.params;
        proof {
            p.bounds();
        }
        let total_buckets: usize = p.num_windows * p.buckets_per_window;
        let ghost before = self.session@;
        // Scatter will modify the offsets via atomicAdd, hence the copy
        self.session.create_buffer_from(SCATTER_OFFSETS, HostData::Words(offsets));
        self.session.create_buffer(SORTED, Elem::Word, p.n_bases * p.num_windows);
        launch_scatter(&mut self.session, p);
        self.session.create_buffer_from(BUCKET_RESULTS, HostData::Identities(total_buckets));
        if num_nonempty > 0 {
            self.session.read_buffer(COUNTS, Elem::Word, total_buckets);
            self.session.read_buffer(NONEMPTY_IDS, Elem::Word, total_buckets);
            self.stage = MsmStage::Counts { num_nonempty: num_nonempty as usize };
        } else {
            self.tail();
        }
        assert(self.session@ =~~= before + offsets_plan::<G::ScalarField, G::GpuRepr>(
            p,
            num_nonempty as nat,
            offsets@,
        ));
    }

    /// Go on with the counts of the buckets and the list of those that are not empty.
    pub fn resume_with_counts(&mut self, counts: &[u32], ids: &[u32])
        requires
            old(self).wf(),
            old(self).spec_stage() matches MsmStage::Counts { num_nonempty }
                && crate::dispatch::listed(counts@, ids@, num_nonempty as nat),
        ensures
            final(self).wf(),
            final(self).spec_params() == old(self).spec_params(),
            final(self).spec_stage() == MsmStage::Result,
            old(self).spec_stage() matches MsmStage::Counts { num_nonempty } ==> final(self).spec_session()@
                == old(self).spec_session()@ + counts_plan::<G::ScalarField, G::GpuRepr>(
                old(self).spec_params(),
                num_nonempty as nat,
                counts@,
                ids@,
            ),
    {
        let ghost before = self.session@;
        match self.stage {
            MsmStage::Counts { num_nonempty } => {
                launch_accumulate(&mut self.session, counts, ids, num_nonempty);
                self.tail();
                assert(self.session@ =~~= before + counts_plan::<G::ScalarField, G::GpuRepr>(
                    self.params,
                    num_nonempty as nat,
                    counts@,
                    ids@,
                ));
            },
            _ => {},
        }
    }

    /// The sum, from what the device handed back.
    pub fn finish(&self, result: &[G::Group]) -> (r: G::Group)
        requires
            self.spec_stage() == MsmStage::Result,
            result@.len() == 1,
        ensures
            r == result@[0],
    {
        result[0]
    }
}

/// How [`SingleMultiexpKernel::multiexp_sorted`] splits the work.
pub open spec fn splits_sorted(
    p: SortedMsmParams,
    n_bases: nat,
    work_units: nat,
    exponents: Seq<[u64; 4]>,
) -> bool {
    &&& p.wf()
    &&& p.n_bases == n_bases
    &&& p.window_size == crate::multiexp::window_size_for(n_bases, work_units)
    &&& p.effective_bits == crate::multiexp::max_bits(
        crate::single_multiexp::exponent_values(exponents),
    )
}

impl<G> SingleMultiexpKernel<G> where G: GpuAffine {
    /// Plan an MSM using sort-based bucket accumulation.
    ///
    /// This replaces per-thread private buckets with a counting-sort approach
    /// where bases are sorted by bucket index, giving sequential memory reads
    /// and better GPU utilization.
    ///
    /// `aborted` is what the abort hook said, at a place where it is possible to abort without
    /// leaving the GPU in a weird state. It does not matter where there is no hook.
    ///
    /// Without any terms the session ends with the upload of the bases, as the driver makes no
    /// buffer without bytes, and nothing comes after it.
    pub fn multiexp_sorted<'a>(
        &self,
        bases: &'a [G::GpuRepr],
        exponents: &[[u64; 4]],
        aborted: bool,
    ) -> (r: EcResult<SortedMultiexp<'a, G>>)
        requires
            self.wf(),
            bases@.len() == exponents@.len(),
            bases@.len() > 0 && !(self.spec_abortable() && aborted) ==> bases@.len()
                * crate::multiexp::num_windows_for(
                crate::multiexp::max_bits(crate::single_multiexp::exponent_values(exponents@)),
                crate::multiexp::window_size_for(bases@.len(), self.spec_work_units()),
            ) <= usize::MAX,
        ensures
            self.spec_abortable() && aborted ==> r == Err::<SortedMultiexp<'a, G>, EcError>(
                EcError::Aborted,
            ),
            !(self.spec_abortable() && aborted) && bases@.len() == 0 ==> (r matches Ok(m) && {
                &&& m.spec_stage() == MsmStage::Offsets
                &&& m.spec_session().wf()
                &&& m.spec_session()@ == crate::single_multiexp::no_terms_plan::<
                    G::ScalarField,
                    G::GpuRepr,
                >(bases@)
            }),
            !(self.spec_abortable() && aborted) && bases@.len() > 0 ==> (r matches Ok(m) && {
                &&& m.wf()
                &&& m.spec_stage() == MsmStage::Offsets
                &&& splits_sorted(m.spec_params(), bases@.len(), self.spec_work_units(), exponents@)
                &&& m.spec_session()@ == start_plan::<G::ScalarField, G::GpuRepr>(
                    bases@,
                    crate::single_multiexp::exponent_bytes(exponents@),
                    m.spec_params(),
                )
            }),
    {
        let scalars = convert_exponents(exponents);
        if self.is_abortable() && aborted {
            return Err(EcError::Aborted);
        }
        // Compute actual bit length needed for small scalar optimization
        let effective_bits: usize = compute_max_scalar_bits(scalars.as_slice());
        let window: usize = self.calc_window_size(bases.len());
        let p = SortedMsmParams::with_window_size(bases.len(), effective_bits, window);
        let mut session: Session<'a, G::ScalarField, G::GpuRepr> = Session::new();
        session.create_buffer_from(BASES, HostData::Bases(bases));
        if bases.len() == 0 {
            assert(session@ =~~= crate::single_multiexp::no_terms_plan::<
                G::ScalarField,
                G::GpuRepr,
            >(bases@));
            return Ok(SortedMultiexp { session, params: p, stage: MsmStage::Offsets });
        }
        proof {
            p.bounds();
        }
        let total_pairs: usize = p.n_bases * p.num_windows;
        let total_buckets: usize = p.num_windows * p.buckets_per_window;
        session.create_buffer_from(SCALARS, HostData::Exponents(scalars));
        // Step 1: Preprocess signed digits (same as regular multiexp)
        session.create_buffer(DIGITS, Elem::Digit, total_pairs);
        launch_preprocess(&mut session, SCALARS, p, LOCAL_WORK_SIZE);
        // Step 2: Decompose to (key, value) pairs
        session.create_buffer(KEYS, Elem::Word, total_pairs);
        session.create_buffer(VALUES, Elem::Word, total_pairs);
        launch_decompose(&mut session, p);
        // Step 3: Allocate and zero-initialize counts buffer
        session.create_buffer_from(COUNTS, HostData::ZeroWords(total_buckets));
        // Step 4: Count buckets (atomic histogram)
        launch_count(&mut session, p);
        // Step 5: Prefix sum (single thread)
        session.create_buffer(OFFSETS, Elem::Word, total_buckets);
        session.create_buffer(NONEMPTY_IDS, Elem::Word, total_buckets);
        session.create_buffer(NUM_NONEMPTY, Elem::Word, 1);
        launch_prefix_sum(&mut session, p);
        // Steps 6 and 7: Download num_nonempty and the offsets
        session.read_buffer(NUM_NONEMPTY, Elem::Word, 1);
        session.read_buffer(OFFSETS, Elem::Word, total_buckets);
        assert(session@ =~~= start_plan::<G::ScalarField, G::GpuRepr>(
            bases@,
            crate::single_multiexp::exponent_bytes(exponents@),
            p,
        ));
        Ok(SortedMultiexp { session, params: p, stage: MsmStage::Offsets })
    }
}

} // verus!
