//! Multiexponentiation on one device.

use std::marker::PhantomData;

use vstd::prelude::*;

use crate::arith::{div_ceil, pow2_usize};
use crate::curve::GpuAffine;
use crate::error::{EcError, EcResult};
use crate::group::Group;
use crate::memory::{calc_chunk_size, exp_size, usable_memory, POINTS_PER_WORK_UNIT};
use crate::multiexp::{
    compute_max_scalar_bits, compute_work_units, window_size, AMPERE, LOCAL_WORK_SIZE,
};
use crate::opencl::{Device, DeviceView, Program};
use crate::session::{Arg, Cmd, DataView, Elem, HostData, KernelId, Session};

verus! {

/// Multiexp kernel for a single GPU.
#[derive(Debug)]
pub struct SingleMultiexpKernel<G> where G: GpuAffine {
    program: Program,
    n: usize,
    work_units: usize,
    abortable: bool,
    _phantom: PhantomData<G>,
}

/// How the work of a multiexponentiation is split.
#[derive(Copy, Clone, Debug, PartialEq, Eq, Structural)]
pub struct MultiexpShape {
    /// The number of terms.
    pub n_bases: usize,
    /// The number of threads.
    pub work_units: usize,
    /// Window size in bits.
    pub window_size: usize,
    /// The number of windows, which is the number of threads of a group.
    pub num_windows: usize,
    /// The number of groups of threads.
    pub num_groups: usize,
    /// The bits of the largest scalar.
    pub effective_bits: usize,
}

impl MultiexpShape {
    /// Windows and groups are as many as the bits, the window size and the threads ask for.
    pub open spec fn wf(&self) -> bool {
        &&& self.work_units >= 1
        &&& self.window_size == crate::multiexp::window_size_for(
            self.n_bases as nat,
            self.work_units as nat,
        )
        &&& 2 <= self.window_size <= 16
        &&& 1 <= self.effective_bits <= 256
        &&& self.num_windows == crate::multiexp::num_windows_for(
            self.effective_bits as nat,
            self.window_size as nat,
        )
        &&& self.num_groups == self.work_units / self.num_windows
    }

    /// The number of buckets of a thread.
    pub open spec fn bucket_len(&self) -> nat {
        vstd::arithmetic::power2::pow2((self.window_size - 1) as nat)
    }

    /// How many times the accumulator is doubled before window `i` is added to it.
    pub open spec fn doublings(&self, i: nat) -> nat {
        crate::arith::min_of(
            self.window_size as int,
            self.effective_bits - i * self.window_size,
        ) as nat
    }
}

/// The little-endian bytes of exponents.
pub open spec fn exponent_bytes(exponents: Seq<[u64; 4]>) -> Seq<Seq<u8>> {
    exponents.map_values(|e: [u64; 4]| crate::limbs::le_bytes(crate::field::num(e), 32))
}

/// The numbers that exponents stand for.
pub open spec fn exponent_values(exponents: Seq<[u64; 4]>) -> Seq<nat> {
    exponents.map_values(|e: [u64; 4]| crate::field::num(e))
}

/// The session of a multiexponentiation of at least one term.
pub open spec fn multiexp_plan<F, B>(
    bases: Seq<B>,
    exponents: Seq<Seq<u8>>,
    s: MultiexpShape,
) -> Seq<Cmd<F, B>> {
    seq![
        Cmd::Upload { slot: 0, data: DataView::Bases(bases) },
        Cmd::Upload { slot: 1, data: DataView::Exponents(exponents) },
        Cmd::Alloc { slot: 2, elem: Elem::Digit, len: (s.n_bases * s.num_windows) as nat },
        Cmd::Launch {
            kernel: KernelId::PreprocessSignedDigits,
            global: crate::arith::ceil_div(s.n_bases as int, LOCAL_WORK_SIZE as int) as nat,
            local: LOCAL_WORK_SIZE as nat,
            args: seq![
                Arg::Buffer(1),
                Arg::Buffer(2),
                Arg::Word(s.n_bases as u32),
                Arg::Word(s.num_windows as u32),
                Arg::Word(s.window_size as u32),
            ],
        },
        Cmd::Alloc { slot: 3, elem: Elem::Point, len: s.work_units as nat * s.bucket_len() },
        Cmd::Alloc { slot: 4, elem: Elem::Point, len: s.work_units as nat },
        Cmd::Launch {
            kernel: KernelId::MultiexpSigned,
            global: crate::arith::ceil_div(
                s.num_windows * s.num_groups,
                LOCAL_WORK_SIZE as int,
            ) as nat,
            local: LOCAL_WORK_SIZE as nat,
            args: seq![
                Arg::Buffer(0),
                Arg::Buffer(3),
                Arg::Buffer(4),
                Arg::Buffer(2),
                Arg::Word(s.n_bases as u32),
                Arg::Word(s.num_groups as u32),
                Arg::Word(s.num_windows as u32),
                Arg::Word(s.window_size as u32),
            ],
        },
        Cmd::Read { slot: 4, elem: Elem::Point, len: s.work_units as nat },
    ]
}

/// The session of a multiexponentiation without any terms: it ends with the upload of the bases, as
/// the driver makes no buffer without bytes.
pub open spec fn no_terms_plan<F, B>(bases: Seq<B>) -> Seq<Cmd<F, B>> {
    seq![Cmd::Upload { slot: 0, data: DataView::Bases(bases) }]
}

/// A multiexponentiation that has been planned.
pub struct Multiexp<'a, G: GpuAffine> {
    /// What the device has to do.
    session: Session<'a, G::ScalarField, G::GpuRepr>,
    /// How the work is split.
    shape: MultiexpShape,
}

/// The results of the threads for window `i`, one for each group.
pub open spec fn window_points<P>(results: Seq<P>, s: MultiexpShape, i: nat) -> Seq<P> {
    Seq::new(s.num_groups as nat, |g: int| results[g * s.num_windows + i])
}

/// The accumulator after the windows from the last one down to window `i` have been added, by
/// Horner's method.
pub open spec fn horner<G: Group>(results: Seq<G::Point>, s: MultiexpShape, i: nat) -> G::Point
    decreases s.num_windows - i,
{
    if i >= s.num_windows {
        G::identity()
    } else {
        crate::group::add_all::<G>(
            crate::group::doubled::<G>(horner::<G>(results, s, i + 1), s.doublings(i)),
            window_points(results, s, i),
        )
    }
}

/// The scalars as bytes, in little-endian order.
pub fn convert_exponents(exponents: &[[u64; 4]]) -> (r: Vec<[u8; 32]>)
    ensures
        r@.map_values(|e: [u8; 32]| e@) == exponent_bytes(exponents@),
        crate::multiexp::scalar_values(r@) == exponent_values(exponents@),
{
    let mut out: Vec<[u8; 32]> = Vec::new();
    let mut i: usize = 0;
    while i < exponents.len()
        invariant
            i <= exponents@.len(),
            out@.len() == i,
            forall|j: int|
                0 <= j < i ==> (#[trigger] out@[j])@ == crate::limbs::le_bytes(
                    crate::field::num(exponents@[j]),
                    32,
                ),
        decreases exponents@.len() - i,
    {
        let le = crate::field::bigint_to_bytes_le(exponents[i]);
        proof {
            crate::limbs::le_bytes_len(crate::field::num(exponents@[i as int]), 32);
        }
        let mut bytes: [u8; 32] = [0u8; 32];
        let mut k: usize = 0;
        while k < 32
            invariant
                k <= 32,
                le@.len() == 32,
                forall|j: int| 0 <= j < k ==> bytes@[j] == le@[j],
            decreases 32 - k,
        {
            bytes[k] = le[k];
            k = k + 1;
        }
        assert(bytes@ =~= le@);
        out.push(bytes);
        i = i + 1;
    }
    proof {
        assert(out@.map_values(|e: [u8; 32]| e@) =~= exponent_bytes(exponents@));
        assert forall|j: int| 0 <= j < exponents@.len() implies crate::multiexp::scalar_values(
            out@,
        )[j] == exponent_values(exponents@)[j] by {
            crate::limbs::limbs_value_4(exponents@[j]@);
            crate::limbs::pow256_small();
            crate::limbs::value_of_le_bytes(crate::field::num(exponents@[j]), 32);
        }
        assert(crate::multiexp::scalar_values(out@) =~= exponent_values(exponents@));
    }
    out
}

/// How [`SingleMultiexpKernel::multiexp`] splits the work.
pub open spec fn splits(
    s: MultiexpShape,
    n_bases: nat,
    work_units: nat,
    exponents: Seq<[u64; 4]>,
) -> bool {
    &&& s.wf()
    &&& s.n_bases == n_bases
    &&& s.work_units == work_units
    &&& s.effective_bits == crate::multiexp::max_bits(exponent_values(exponents))
}

/// Whether the lengths of the buffers of a multiexponentiation are machine numbers.
pub open spec fn lengths_fit(n_bases: nat, work_units: nat, exponents: Seq<[u64; 4]>) -> bool {
    let window = crate::multiexp::window_size_for(n_bases, work_units);
    &&& n_bases * crate::multiexp::num_windows_for(
        crate::multiexp::max_bits(exponent_values(exponents)),
        window,
    ) <= usize::MAX
    &&& work_units * vstd::arithmetic::power2::pow2((window - 1) as nat) <= usize::MAX
}

impl<G> SingleMultiexpKernel<G> where G: GpuAffine {
    /// The number of exponentiations the GPU can handle in a single execution of the kernel.
    pub closed spec fn spec_n(&self) -> nat {
        self.n as nat
    }

    /// The number of units the work is split into. It will results in this amount of threads on
    /// the GPU.
    pub closed spec fn spec_work_units(&self) -> nat {
        self.work_units as nat
    }

    /// The program whose kernels are run.
    pub closed spec fn spec_program(&self) -> Program {
        self.program
    }

    /// Whether the calculations can be aborted. If they can, whoever runs them asks an abort hook
    /// at places where it is possible to abort, and hands over what it said.
    pub closed spec fn spec_abortable(&self) -> bool {
        self.abortable
    }

    /// There is at least one work unit.
    pub open spec fn wf(&self) -> bool {
        1 <= self.spec_work_units() <= usize::MAX
    }

    /// Whether a device is large enough for the buckets of one work unit.
    pub open spec fn large_enough(device: DeviceView) -> bool {
        &&& crate::multiexp::spec_work_units(device.compute_units, device.compute_capability)
            <= usize::MAX
        &&& crate::memory::term_size::<G>() > 0
        &&& crate::memory::POINTS_PER_WORK_UNIT * vstd::layout::size_of::<G::Group>()
            + crate::memory::term_size::<G>() <= usize::MAX
        &&& crate::memory::POINTS_PER_WORK_UNIT * vstd::layout::size_of::<G::Group>()
            <= crate::memory::usable(device.memory)
    }

    /// Whether the kernel was made for a program, a device and an abort hook.
    pub open spec fn is_for(&self, program: Program, device: DeviceView, abortable: bool) -> bool {
        &&& self.wf()
        &&& self.spec_program() == program
        &&& self.spec_abortable() == abortable
        &&& (self.spec_n() as int, self.spec_work_units() as int)
            == crate::memory::chunk_size_for(
            crate::arith::min_of(crate::memory::usable(device.memory) as int, usize::MAX as int),
            crate::multiexp::spec_work_units(device.compute_units, device.compute_capability),
            crate::memory::term_size::<G>() as int,
            vstd::layout::size_of::<G::Group>() as int,
        )
    }

    /// Whether a device is large enough for the buckets of one work unit.
    pub fn fits_device(device: &Device) -> (r: bool)
        ensures
            r == Self::large_enough(device@),
    {
        let units: u64 = match device.compute_capability() {
            Some((major, _)) => if major == AMPERE {
                256
            } else {
                128
            },
            None => 128,
        };
        let work_units: u64 = device.compute_units() as u64 * units;
        let proj_size: u128 = std::mem::size_of::<G::Group>() as u128;
        assert(POINTS_PER_WORK_UNIT * proj_size <= 32769 * 0x1_0000_0000_0000_0000)
            by (nonlinear_arith)
            requires
                POINTS_PER_WORK_UNIT == 32769,
                proj_size <= 0xffff_ffff_ffff_ffff,
        ;
        let term_size: u128 = std::mem::size_of::<G::GpuRepr>() as u128 + exp_size() as u128;
        let overhead: u128 = POINTS_PER_WORK_UNIT as u128 * proj_size;
        let max_memory: usize = usable_memory(device.memory());
        work_units <= usize::MAX as u64 && term_size > 0 && overhead + term_size
            <= usize::MAX as u128 && overhead <= max_memory as u128
    }

    /// Create a new Multiexp kernel instance for a device.
    ///
    /// `abortable` says whether there is a hook that is asked whether to abort the computation.
    pub fn create(program: Program, device: &Device, abortable: bool) -> (r: EcResult<Self>)
        requires
            Self::large_enough(device@),
        ensures
            r matches Ok(k) && k.is_for(program, device@, abortable),
    {
        let mem: u64 = device.memory();
        let work_units: usize = compute_work_units(device);
        let (n, effective_work_units) = calc_chunk_size::<G>(mem, work_units);
        Ok(
            SingleMultiexpKernel {
                program,
                n,
                work_units: effective_work_units,
                abortable,
                _phantom: PhantomData,
            },
        )
    }

    /// The number of exponentiations the GPU can handle in a single execution of the kernel.
    pub fn chunk_size(&self) -> (r: usize)
        ensures
            r == self.spec_n(),
    {
        self.n
    }

    /// The number of units the work is split into.
    pub fn work_units(&self) -> (r: usize)
        ensures
            r == self.spec_work_units(),
    {
        self.work_units
    }

    /// Whether the calculations can be aborted.
    pub fn is_abortable(&self) -> (r: bool)
        ensures
            r == self.spec_abortable(),
    {
        self.abortable
    }

    /// The program whose kernels are run.
    pub fn program(&self) -> (r: &Program)
        ensures
            *r == self.spec_program(),
    {
        &self.program
    }

    /// Calculates the window size, based on the given number of terms.
    pub fn calc_window_size(&self, num_terms: usize) -> (r: usize)
        requires
            self.wf(),
        ensures
            r == crate::multiexp::window_size_for(num_terms as nat, self.spec_work_units()),
            2 <= r <= 16,
    {
        window_size(num_terms, self.work_units)
    }

    /// Plan a multiexp computation on the GPU using signed-digit decomposition.
    ///
    /// Uses Booth encoding to halve the number of buckets per thread (from 2^w-1 to 2^(w-1)),
    /// which roughly halves the summation-by-parts cost in each thread.
    ///
    /// `aborted` is what the abort hook said, at a place where it is possible to abort without
    /// leaving the GPU in a weird state. It does not matter where there is no hook.
    ///
    /// Without any terms the session ends with the upload of the bases, as the driver makes no
    /// buffer without bytes.
    pub fn multiexp<'a>(
        &self,
        bases: &'a [G::GpuRepr],
        exponents: &[[u64; 4]],
        aborted: bool,
    ) -> (r: EcResult<Multiexp<'a, G>>)
        requires
            self.wf(),
            bases@.len() == exponents@.len(),
            bases@.len() > 0 && !(self.spec_abortable() && aborted) ==> lengths_fit(
                bases@.len(),
                self.spec_work_units(),
                exponents@,
            ),
        ensures
            self.spec_abortable() && aborted ==> r == Err::<Multiexp<'a, G>, EcError>(
                EcError::Aborted,
            ),
            !(self.spec_abortable() && aborted) ==> (r matches Ok(m) && {
                &&& splits(m.spec_shape(), bases@.len(), self.spec_work_units(), exponents@)
                &&& m.spec_session().wf()
                &&& m.spec_session()@ == if bases@.len() == 0 {
                    no_terms_plan::<G::ScalarField, G::GpuRepr>(bases@)
                } else {
                    multiexp_plan::<G::ScalarField, G::GpuRepr>(
                        bases@,
                        exponent_bytes(exponents@),
                        m.spec_shape(),
                    )
                }
            }),
    {
        let scalars = convert_exponents(exponents);
        if self.abortable && aborted {
            return Err(EcError::Aborted);
        }
        // Compute actual bit length needed for small scalar optimization
        let effective_bits: usize = compute_max_scalar_bits(scalars.as_slice());
        let window: usize = self.calc_window_size(bases.len());
        let num_windows: usize = div_ceil(effective_bits + 1, window);
        proof {
            crate::arith::ceil_div_least(effective_bits as int + 1, window as int);
        }
        let num_groups: usize = self.work_units / num_windows;
        let n_bases: usize = bases.len();
        let shape = MultiexpShape {
            n_bases,
            work_units: self.work_units,
            window_size: window,
            num_windows,
            num_groups,
            effective_bits,
        };
        let mut session: Session<'a, G::ScalarField, G::GpuRepr> = Session::new();
        session.create_buffer_from(0, HostData::Bases(bases));
        if n_bases == 0 {
            assert(session@ =~~= no_terms_plan::<G::ScalarField, G::GpuRepr>(bases@));
            return Ok(Multiexp { session, shape });
        }
        // Signed-digit: half the buckets (2^(w-1) instead of 2^w - 1)
        let signed_bucket_len: usize = pow2_usize(window - 1);
        proof {
            let nw = num_windows as int;
            let n = bases@.len() as int;
            assert(0 < n * nw) by (nonlinear_arith)
                requires
                    1 <= nw,
                    n > 0,
            ;
            vstd::arithmetic::power2::lemma_pow2_pos((window - 1) as nat);
            let u = self.work_units as int;
            let b = signed_bucket_len as int;
            assert(0 < u * b) by (nonlinear_arith)
                requires
                    1 <= b,
                    u >= 1,
            ;
            vstd::arithmetic::div_mod::lemma_fundamental_div_mod(u, num_windows as int);
            let q = num_groups as int;
            assert(nw * q <= u) by (nonlinear_arith)
                requires
                    u == nw * q + u % nw,
                    u % nw >= 0,
            ;
        }
        session.create_buffer_from(1, HostData::Exponents(scalars));
        // Preprocessing: convert exponents to signed digits
        session.create_buffer(2, Elem::Digit, n_bases * num_windows);
        session.launch(
            KernelId::PreprocessSignedDigits,
            div_ceil(n_bases, LOCAL_WORK_SIZE),
            LOCAL_WORK_SIZE,
            vec![
                Arg::Buffer(1),
                Arg::Buffer(2),
                Arg::Word(n_bases as u32),
                Arg::Word(num_windows as u32),
                Arg::Word(window as u32),
            ],
        );
        session.create_buffer(3, Elem::Point, self.work_units * signed_bucket_len);
        session.create_buffer(4, Elem::Point, self.work_units);
        // Each group will have `num_windows` threads and as there are `num_groups` groups, there
        // will be `num_groups` * `num_windows` threads in total.
        session.launch(
            KernelId::MultiexpSigned,
            div_ceil(num_windows * num_groups, LOCAL_WORK_SIZE),
            LOCAL_WORK_SIZE,
            vec![
                Arg::Buffer(0),
                Arg::Buffer(3),
                Arg::Buffer(4),
                Arg::Buffer(2),
                Arg::Word(n_bases as u32),
                Arg::Word(num_groups as u32),
                Arg::Word(num_windows as u32),
                Arg::Word(window as u32),
            ],
        );
        session.read_buffer(4, Elem::Point, self.work_units);
        assert(session@ =~~= multiexp_plan::<G::ScalarField, G::GpuRepr>(
            bases@,
            exponent_bytes(exponents@),
            shape,
        ));
        Ok(Multiexp { session, shape })
    }
}

/// Calculates the final result by accumulating the results of the threads.
///
/// Window 0 contains the LSB and the last window contains the MSB. The windows are processed in
/// reverse order (MSB first) using Horner's method.
pub fn accumulate<G: Group>(results: &[G], shape: MultiexpShape) -> (acc: G)
    requires
        shape.wf(),
        results@.len() == shape.work_units,
    ensures
        acc.point() == horner::<G>(crate::group::points(results@), shape, 0),
{
    let mut acc: G = G::zero();
    let mut i: usize = shape.num_windows;
    let ghost ps = crate::group::points(results@);
    proof {
        crate::multiexp::windows_cover_bits(
            shape.effective_bits as nat,
            shape.window_size as nat,
        );
    }
    while i > 0
        invariant
            i <= shape.num_windows,
            shape.wf(),
            ps == crate::group::points(results@),
            results@.len() == shape.work_units,
            (shape.num_windows - 1) * shape.window_size <= shape.effective_bits,
            acc.point() == horner::<G>(ps, shape, i as nat),
        decreases i,
    {
        i = i - 1;
        proof {
            let ii = i as int;
            let nw = shape.num_windows as int;
            let ws = shape.window_size as int;
            let e = shape.effective_bits as int;
            assert(ii * ws <= e) by (nonlinear_arith)
                requires
                    (nw - 1) * ws <= e,
                    0 <= ii <= nw - 1,
                    ws >= 0,
            ;
        }
        let left: usize = shape.effective_bits - i * shape.window_size;
        let w: usize = if shape.window_size <= left {
            shape.window_size
        } else {
            left
        };
        let mut k: usize = 0;
        let ghost above = acc.point();
        while k < w
            invariant
                k <= w,
                acc.point() == crate::group::doubled::<G>(above, k as nat),
            decreases w - k,
        {
            acc = acc.double();
            k = k + 1;
        }
        let ghost start = acc.point();
        let ghost mine = window_points(ps, shape, i as nat);
        let mut g: usize = 0;
        assert(mine.take(0) =~= Seq::empty());
        while g < shape.num_groups
            invariant
                g <= shape.num_groups,
                i < shape.num_windows,
                shape.wf(),
                ps == crate::group::points(results@),
                results@.len() == shape.work_units,
                mine == window_points(ps, shape, i as nat),
                acc.point() == crate::group::add_all::<G>(start, mine.take(g as int)),
            decreases shape.num_groups - g,
        {
            proof {
                let u = shape.work_units as int;
                let nw = shape.num_windows as int;
                let ng = shape.num_groups as int;
                let gi = g as int;
                let ii = i as int;
                vstd::arithmetic::div_mod::lemma_fundamental_div_mod(u, nw);
                assert(gi * nw + ii < u) by (nonlinear_arith)
                    requires
                        u == nw * ng + u % nw,
                        u % nw >= 0,
                        0 <= gi < ng,
                        0 <= ii < nw,
                ;
                assert(gi * nw >= 0) by (nonlinear_arith)
                    requires
                        gi >= 0,
                        nw >= 0,
                ;
                assert(mine.take(g + 1).drop_last() =~= mine.take(g as int));
            }
            acc = acc.added(&results[g * shape.num_windows + i]);
            g = g + 1;
        }
        assert(mine.take(g as int) =~= mine);
    }
    acc
}

impl<'a, G: GpuAffine> Multiexp<'a, G> {
    /// What the device has to do.
    pub closed spec fn spec_session(&self) -> Session<'a, G::ScalarField, G::GpuRepr> {
        self.session
    }

    /// How the work is split.
    pub closed spec fn spec_shape(&self) -> MultiexpShape {
        self.shape
    }

    /// What the device has to do.
    pub fn session(&self) -> (r: &Session<'a, G::ScalarField, G::GpuRepr>)
        ensures
            *r == self.spec_session(),
    {
        &self.session
    }

    /// How the work is split.
    pub fn shape(&self) -> (r: MultiexpShape)
        ensures
            r == self.spec_shape(),
    {
        self.shape
    }

    /// The result, from what the device handed back.
    pub fn finish(&self, results: &[G::Group]) -> (r: G::Group)
        requires
            self.spec_shape().wf(),
            results@.len() == self.spec_shape().work_units,
        ensures
            r.point() == horner::<G::Group>(crate::group::points(results@), self.spec_shape(), 0),
    {
        accumulate(results, self.shape)
    }
}

/// The terms that Horner's method adds up: the sum of each window, weighted by its position.
pub open spec fn weighted_windows<G: Group>(
    results: Seq<G::Point>,
    s: MultiexpShape,
    n: nat,
) -> Seq<G::Point> {
    Seq::new(
        n,
        |i: int|
            crate::group::doubled::<G>(
                crate::group::sum::<G>(window_points(results, s, i as nat)),
                (i * s.window_size) as nat,
            ),
    )
}

proof fn window_points_in<G: Group>(
    c: Set<G::Point>,
    results: Seq<G::Point>,
    s: MultiexpShape,
    i: nat,
)
    requires
        crate::group::abelian::<G>(c),
        crate::group::all_in(c, results),
        s.wf(),
        results.len() == s.work_units,
        i < s.num_windows,
    ensures
        crate::group::all_in(c, window_points(results, s, i)),
        c.contains(crate::group::sum::<G>(window_points(results, s, i))),
{
    let w = window_points(results, s, i);
    assert forall|g: int| 0 <= g < w.len() implies c.contains(#[trigger] w[g]) by {
        let u = s.work_units as int;
        let nw = s.num_windows as int;
        let ng = s.num_groups as int;
        let ii = i as int;
        vstd::arithmetic::div_mod::lemma_fundamental_div_mod(u, nw);
        assert(0 <= g * nw + ii < u) by (nonlinear_arith)
            requires
                u == nw * ng + u % nw,
                u % nw >= 0,
                0 <= g < ng,
                0 <= ii < nw,
        ;
        assert(w[g] == results[g * s.num_windows + i]);
    }
    crate::group::add_all_in::<G>(c, G::identity(), w);
}

proof fn horner_in<G: Group>(
    c: Set<G::Point>,
    results: Seq<G::Point>,
    s: MultiexpShape,
    i: nat,
)
    requires
        crate::group::abelian::<G>(c),
        crate::group::all_in(c, results),
        s.wf(),
        results.len() == s.work_units,
    ensures
        c.contains(horner::<G>(results, s, i)),
    decreases s.num_windows - i,
{
    if i < s.num_windows {
        horner_in::<G>(c, results, s, i + 1);
        window_points_in::<G>(c, results, s, i);
        crate::group::doubled_in::<G>(c, horner::<G>(results, s, i + 1), s.doublings(i));
        crate::group::add_all_in::<G>(
            c,
            crate::group::doubled::<G>(horner::<G>(results, s, i + 1), s.doublings(i)),
            window_points(results, s, i),
        );
    }
}

/// The windows that are still to be added, and the accumulator at its position, make up the
/// weighted sum.
proof fn horner_progress<G: Group>(
    c: Set<G::Point>,
    results: Seq<G::Point>,
    s: MultiexpShape,
    i: nat,
)
    requires
        crate::group::abelian::<G>(c),
        crate::group::all_in(c, results),
        s.wf(),
        results.len() == s.work_units,
        i <= s.num_windows,
    ensures
        crate::group::sum::<G>(weighted_windows::<G>(results, s, s.num_windows as nat))
            == G::plus(
            crate::group::sum::<G>(weighted_windows::<G>(results, s, i)),
            crate::group::doubled::<G>(
                horner::<G>(results, s, i),
                (i * s.window_size) as nat,
            ),
        ),
        c.contains(crate::group::sum::<G>(weighted_windows::<G>(results, s, i))),
    decreases s.num_windows - i,
{
    let all = weighted_windows::<G>(results, s, s.num_windows as nat);
    let here = weighted_windows::<G>(results, s, i);
    assert forall|j: int| 0 <= j < here.len() implies c.contains(#[trigger] here[j]) by {
        window_points_in::<G>(c, results, s, j as nat);
        crate::group::doubled_in::<G>(
            c,
            crate::group::sum::<G>(window_points(results, s, j as nat)),
            (j * s.window_size) as nat,
        );
    }
    crate::group::add_all_in::<G>(c, G::identity(), here);
    let sh = crate::group::sum::<G>(here);
    if i == s.num_windows {
        crate::group::doubled_identity::<G>(c, (i * s.window_size) as nat);
        assert(G::plus(sh, G::identity()) == G::plus(G::identity(), sh));
    } else {
        horner_progress::<G>(c, results, s, i + 1);
        horner_in::<G>(c, results, s, i + 1);
        window_points_in::<G>(c, results, s, i);
        let ws = s.window_size as int;
        let ii = i as int;
        let next = weighted_windows::<G>(results, s, i + 1);
        assert(next.drop_last() =~= here);
        let h1 = horner::<G>(results, s, i + 1);
        let w = crate::group::sum::<G>(window_points(results, s, i));
        let shift = (i * s.window_size) as nat;
        let shift1 = ((i + 1) * s.window_size) as nat;
        let term = crate::group::doubled::<G>(w, shift);
        assert(next.last() == term);
        assert(crate::group::sum::<G>(next) == G::plus(sh, term));
        let up = crate::group::doubled::<G>(h1, s.doublings(i));
        crate::group::doubled_in::<G>(c, h1, s.doublings(i));
        crate::group::add_all_is_plus_sum::<G>(c, up, window_points(results, s, i));
        assert(horner::<G>(results, s, i) == G::plus(up, w));
        crate::group::doubled_plus::<G>(c, up, w, shift);
        let high = crate::group::doubled::<G>(h1, shift1);
        if i + 1 == s.num_windows {
            crate::group::doubled_identity::<G>(c, s.doublings(i));
            crate::group::doubled_identity::<G>(c, shift);
            crate::group::doubled_identity::<G>(c, shift1);
        } else {
            crate::multiexp::windows_cover_bits(
                s.effective_bits as nat,
                s.window_size as nat,
            );
            let nw = s.num_windows as int;
            let e = s.effective_bits as int;
            assert(e - ii * ws >= ws) by (nonlinear_arith)
                requires
                    (nw - 1) * ws <= e,
                    ii + 1 <= nw - 1,
                    ws >= 0,
            ;
            assert(s.doublings(i) == ws);
            crate::group::doubled_doubled::<G>(h1, ws as nat, shift);
            assert(ws + ii * ws == (ii + 1) * ws) by (nonlinear_arith);
        }
        assert(crate::group::doubled::<G>(up, shift) == high);
        crate::group::doubled_in::<G>(c, h1, shift1);
        crate::group::doubled_in::<G>(c, w, shift);
        assert(G::plus(high, term) == G::plus(term, high));
        assert(G::plus(sh, G::plus(term, high)) == G::plus(G::plus(sh, term), high));
    }
}

/// Horner's method adds up the windows, each weighted by two to the power of the position of its
/// lowest bit. It holds in every abelian group, whatever the threads computed.
pub proof fn horner_is_weighted_sum<G: Group>(
    c: Set<G::Point>,
    results: Seq<G::Point>,
    s: MultiexpShape,
)
    requires
        crate::group::abelian::<G>(c),
        crate::group::all_in(c, results),
        s.wf(),
        results.len() == s.work_units,
    ensures
        horner::<G>(results, s, 0) == crate::group::sum::<G>(
            weighted_windows::<G>(results, s, s.num_windows as nat),
        ),
{
    horner_progress::<G>(c, results, s, 0);
    horner_in::<G>(c, results, s, 0);
    assert(weighted_windows::<G>(results, s, 0) =~= Seq::empty());
    assert(0 * s.window_size == 0);
    assert(G::plus(G::identity(), horner::<G>(results, s, 0)) == horner::<G>(results, s, 0));
}

/// Whether `act` multiplies the points of `c` by integers.
pub open spec fn integer_action<G: Group>(
    c: Set<G::Point>,
    act: spec_fn(int, G::Point) -> G::Point,
) -> bool {
    &&& forall|k: int, p: G::Point| c.contains(p) ==> c.contains(#[trigger] act(k, p))
    &&& forall|p: G::Point| c.contains(p) ==> #[trigger] act(0, p) == G::identity()
    &&& forall|p: G::Point| c.contains(p) ==> #[trigger] act(1, p) == p
    &&& forall|j: int, k: int, p: G::Point|
        c.contains(p) ==> #[trigger] G::plus(act(j, p), act(k, p)) == act(j + k, p)
}

/// The multiples of the first `m` bases by their digits of window `i`.
pub open spec fn digit_terms<G: Group>(
    act: spec_fn(int, G::Point) -> G::Point,
    bases: Seq<G::Point>,
    digits: spec_fn(int, int) -> int,
    i: int,
    m: nat,
) -> Seq<G::Point> {
    Seq::new(m, |j: int| act(digits(j, i), bases[j]))
}

/// The number with the first `n` signed digits.
pub open spec fn digits_number(
    digits: spec_fn(int, int) -> int,
    j: int,
    window_size: nat,
    n: nat,
) -> int
    decreases n,
{
    if n == 0 {
        0
    } else {
        digits_number(digits, j, window_size, (n - 1) as nat) + digits(j, n - 1)
            * vstd::arithmetic::power2::pow2(((n - 1) * window_size) as nat)
    }
}

proof fn doubled_act<G: Group>(
    c: Set<G::Point>,
    act: spec_fn(int, G::Point) -> G::Point,
    d: int,
    p: G::Point,
    k: nat,
)
    requires
        crate::group::abelian::<G>(c),
        integer_action::<G>(c, act),
        c.contains(p),
    ensures
        crate::group::doubled::<G>(act(d, p), k) == act(
            d * vstd::arithmetic::power2::pow2(k),
            p,
        ),
    decreases k,
{
    vstd::arithmetic::power2::lemma2_to64();
    if k > 0 {
        let j = (k - 1) as nat;
        doubled_act::<G>(c, act, d, p, j);
        vstd::arithmetic::power2::lemma_pow2_unfold(k);
        let q = vstd::arithmetic::power2::pow2(j) as int;
        assert(d * q + d * q == d * (2 * q)) by (nonlinear_arith);
        assert(G::plus(act(d * q, p), act(d * q, p)) == act(d * q + d * q, p));
    } else {
        assert(d * 1 == d);
    }
}

proof fn weighted_digits_in<G: Group>(
    c: Set<G::Point>,
    act: spec_fn(int, G::Point) -> G::Point,
    bases: Seq<G::Point>,
    digits: spec_fn(int, int) -> int,
    window_size: nat,
    n: nat,
    m: nat,
)
    requires
        crate::group::abelian::<G>(c),
        integer_action::<G>(c, act),
        crate::group::all_in(c, bases),
        m <= bases.len(),
    ensures
        crate::group::all_in(c, weighted_digits::<G>(act, bases, digits, window_size, n, m)),
        c.contains(
            crate::group::sum::<G>(weighted_digits::<G>(act, bases, digits, window_size, n, m)),
        ),
        forall|i: int|
            c.contains(crate::group::sum::<G>(#[trigger] digit_terms::<G>(act, bases, digits, i, m))),
{
    assert forall|i: int|
        c.contains(
            crate::group::sum::<G>(#[trigger] digit_terms::<G>(act, bases, digits, i, m)),
        ) by {
        let t = digit_terms::<G>(act, bases, digits, i, m);
        assert forall|j: int| 0 <= j < t.len() implies c.contains(#[trigger] t[j]) by {
            assert(c.contains(bases[j]));
        }
        crate::group::add_all_in::<G>(c, G::identity(), t);
    }
    let s = weighted_digits::<G>(act, bases, digits, window_size, n, m);
    assert forall|i: int| 0 <= i < s.len() implies c.contains(#[trigger] s[i]) by {
        crate::group::doubled_in::<G>(
            c,
            crate::group::sum::<G>(digit_terms::<G>(act, bases, digits, i, m)),
            (i * window_size) as nat,
        );
    }
    crate::group::add_all_in::<G>(c, G::identity(), s);
}

/// For each of the first `n` windows, the sum of the digit multiples of the first `m` bases,
/// weighted by the position of the window.
pub open spec fn weighted_digits<G: Group>(
    act: spec_fn(int, G::Point) -> G::Point,
    bases: Seq<G::Point>,
    digits: spec_fn(int, int) -> int,
    window_size: nat,
    n: nat,
    m: nat,
) -> Seq<G::Point> {
    Seq::new(
        n,
        |i: int|
            crate::group::doubled::<G>(
                crate::group::sum::<G>(digit_terms::<G>(act, bases, digits, i, m)),
                (i * window_size) as nat,
            ),
    )
}

/// The multiples of the first `m` bases by the numbers that their digits make up.
pub open spec fn number_terms<G: Group>(
    act: spec_fn(int, G::Point) -> G::Point,
    bases: Seq<G::Point>,
    digits: spec_fn(int, int) -> int,
    window_size: nat,
    n: nat,
    m: nat,
) -> Seq<G::Point> {
    Seq::new(m, |j: int| act(digits_number(digits, j, window_size, n), bases[j]))
}

/// One more base adds its multiple.
proof fn one_more_base<G: Group>(
    c: Set<G::Point>,
    act: spec_fn(int, G::Point) -> G::Point,
    bases: Seq<G::Point>,
    digits: spec_fn(int, int) -> int,
    window_size: nat,
    n: nat,
    m: nat,
)
    requires
        crate::group::abelian::<G>(c),
        integer_action::<G>(c, act),
        crate::group::all_in(c, bases),
        m < bases.len(),
    ensures
        crate::group::sum::<G>(weighted_digits::<G>(act, bases, digits, window_size, n, m + 1))
            == G::plus(
            crate::group::sum::<G>(weighted_digits::<G>(act, bases, digits, window_size, n, m)),
            act(digits_number(digits, m as int, window_size, n), bases[m as int]),
        ),
    decreases n,
{
    let b = bases[m as int];
    assert(c.contains(b));
    let s0 = weighted_digits::<G>(act, bases, digits, window_size, n, m);
    let s1 = weighted_digits::<G>(act, bases, digits, window_size, n, m + 1);
    if n == 0 {
        assert(s0 =~= Seq::empty());
        assert(s1 =~= Seq::empty());
        assert(act(0, b) == G::identity());
        assert(G::plus(G::identity(), G::identity()) == G::identity());
    } else {
        let k = (n - 1) as nat;
        one_more_base::<G>(c, act, bases, digits, window_size, k, m);
        weighted_digits_in::<G>(c, act, bases, digits, window_size, k, m);
        weighted_digits_in::<G>(c, act, bases, digits, window_size, k, m + 1);
        assert(s0.drop_last() =~= weighted_digits::<G>(act, bases, digits, window_size, k, m));
        assert(s1.drop_last() =~= weighted_digits::<G>(act, bases, digits, window_size, k, m + 1));
        let t0 = digit_terms::<G>(act, bases, digits, k as int, m);
        let t1 = digit_terms::<G>(act, bases, digits, k as int, m + 1);
        assert(t1.drop_last() =~= t0);
        let d = digits(m as int, k as int);
        let shift = (k * window_size) as nat;
        let w0 = crate::group::sum::<G>(t0);
        assert(crate::group::sum::<G>(t1) == G::plus(w0, act(d, b)));
        assert(c.contains(act(d, b)));
        crate::group::doubled_plus::<G>(c, w0, act(d, b), shift);
        doubled_act::<G>(c, act, d, b, shift);
        crate::group::doubled_in::<G>(c, w0, shift);
        let x = crate::group::sum::<G>(s0.drop_last());
        let y = act(digits_number(digits, m as int, window_size, k), b);
        let u = crate::group::doubled::<G>(w0, shift);
        let v = act(d * vstd::arithmetic::power2::pow2(shift), b);
        assert(c.contains(y) && c.contains(v));
        crate::group::regroup::<G>(c, x, y, u, v);
        assert(G::plus(y, v) == act(
            digits_number(digits, m as int, window_size, k) + d
                * vstd::arithmetic::power2::pow2(shift),
            b,
        ));
    }
}

/// The weighted sums of the windows together are the sum of the multiples of the bases by the numbers
/// that their digits make up.
pub proof fn windows_make_multiples<G: Group>(
    c: Set<G::Point>,
    act: spec_fn(int, G::Point) -> G::Point,
    bases: Seq<G::Point>,
    digits: spec_fn(int, int) -> int,
    window_size: nat,
    n: nat,
    m: nat,
)
    requires
        crate::group::abelian::<G>(c),
        integer_action::<G>(c, act),
        crate::group::all_in(c, bases),
        m <= bases.len(),
    ensures
        crate::group::sum::<G>(weighted_digits::<G>(act, bases, digits, window_size, n, m))
            == crate::group::sum::<G>(
            number_terms::<G>(act, bases, digits, window_size, n, m),
        ),
    decreases m,
{
    if m == 0 {
        no_bases::<G>(c, act, bases, digits, window_size, n);
        assert(number_terms::<G>(act, bases, digits, window_size, n, 0) =~= Seq::empty());
    } else {
        let k = (m - 1) as nat;
        windows_make_multiples::<G>(c, act, bases, digits, window_size, n, k);
        one_more_base::<G>(c, act, bases, digits, window_size, n, k);
        assert(number_terms::<G>(act, bases, digits, window_size, n, m).drop_last()
            =~= number_terms::<G>(act, bases, digits, window_size, n, k));
    }
}

proof fn no_bases<G: Group>(
    c: Set<G::Point>,
    act: spec_fn(int, G::Point) -> G::Point,
    bases: Seq<G::Point>,
    digits: spec_fn(int, int) -> int,
    window_size: nat,
    n: nat,
)
    requires
        crate::group::abelian::<G>(c),
    ensures
        crate::group::sum::<G>(weighted_digits::<G>(act, bases, digits, window_size, n, 0))
            == G::identity(),
    decreases n,
{
    let s = weighted_digits::<G>(act, bases, digits, window_size, n, 0);
    if n == 0 {
        assert(s =~= Seq::empty());
    } else {
        let k = (n - 1) as nat;
        no_bases::<G>(c, act, bases, digits, window_size, k);
        assert(s.drop_last() =~= weighted_digits::<G>(act, bases, digits, window_size, k, 0));
        assert(digit_terms::<G>(act, bases, digits, k as int, 0) =~= Seq::empty());
        crate::group::doubled_identity::<G>(c, (k * window_size) as nat);
        assert(G::plus(G::identity(), G::identity()) == G::identity());
    }
}

/// The result of a multiexponentiation is the sum of the multiples of the bases, provided that the
/// threads of each window together add up the digit multiples of the bases, and that the digits of
/// each base make up its exponent.
pub proof fn multiexp_is_sum_of_multiples<G: Group>(
    c: Set<G::Point>,
    act: spec_fn(int, G::Point) -> G::Point,
    bases: Seq<G::Point>,
    exponents: Seq<int>,
    digits: spec_fn(int, int) -> int,
    results: Seq<G::Point>,
    s: MultiexpShape,
)
    requires
        crate::group::abelian::<G>(c),
        integer_action::<G>(c, act),
        crate::group::all_in(c, bases),
        crate::group::all_in(c, results),
        s.wf(),
        results.len() == s.work_units,
        exponents.len() == bases.len(),
        forall|i: int|
            0 <= i < s.num_windows ==> #[trigger] crate::group::sum::<G>(
                window_points(results, s, i as nat),
            ) == crate::group::sum::<G>(
                digit_terms::<G>(act, bases, digits, i, bases.len()),
            ),
        forall|j: int|
            0 <= j < bases.len() ==> #[trigger] exponents[j] == digits_number(
                digits,
                j,
                s.window_size as nat,
                s.num_windows as nat,
            ),
    ensures
        horner::<G>(results, s, 0) == crate::group::sum::<G>(
            Seq::new(bases.len(), |j: int| act(exponents[j], bases[j])),
        ),
{
    let n = s.num_windows as nat;
    let ws = s.window_size as nat;
    let m = bases.len();
    horner_is_weighted_sum::<G>(c, results, s);
    let a = weighted_windows::<G>(results, s, n);
    let b = weighted_digits::<G>(act, bases, digits, ws, n, m);
    assert forall|i: int| 0 <= i < n implies a[i] == b[i] by {
        let w = crate::group::sum::<G>(window_points(results, s, i as nat));
        assert(w == crate::group::sum::<G>(digit_terms::<G>(act, bases, digits, i, m)));
    }
    assert(a =~= b);
    windows_make_multiples::<G>(c, act, bases, digits, ws, n, m);
    assert(number_terms::<G>(act, bases, digits, ws, n, m) =~= Seq::new(
        m,
        |j: int| act(exponents[j], bases[j]),
    ));
}

} // verus!
