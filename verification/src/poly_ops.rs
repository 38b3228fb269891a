//! Polynomial operations on the GPU for HyperKZG acceleration.
//!
//! This module plans GPU-accelerated polynomial operations including:
//! - Variable fixing (linear interpolation)
//! - Polynomial evaluation
//! - Linear combination
//! - Witness polynomial computation

use std::marker::PhantomData;

use vstd::prelude::*;

use crate::arith::div_ceil;
use crate::error::EcResult;
use crate::opencl::{Device, Program};
use crate::session::{Arg, Cmd, DataView, Elem, HostData, KernelId, Session};

verus! {

/// The number of threads per work group.
pub const LOCAL_WORK_SIZE: usize = 256;

/// The number of thread groups for `n` items.
pub open spec fn groups(n: nat) -> nat {
    crate::sorted_msm::groups(n, LOCAL_WORK_SIZE)
}

/// `n` halved `k` times.
pub open spec fn halved(n: nat, k: nat) -> nat
    decreases k,
{
    if k == 0 {
        n
    } else {
        halved(n, (k - 1) as nat) / 2
    }
}

/// A number can be halved as often as its logarithm says before it drops below one.
pub proof fn halved_positive(n: nat, k: nat)
    requires
        n >= 1,
        k <= crate::arith::log2(n),
    ensures
        halved(n, k) >= 1,
        halved(n, k) <= n,
        crate::arith::log2(halved(n, k)) == crate::arith::log2(n) - k,
    decreases k,
{
    if k > 0 {
        halved_positive(n, (k - 1) as nat);
    }
}

/// The polynomials of a slice.
pub open spec fn polys_view<F>(polys: Seq<&[F]>) -> Seq<Seq<F>> {
    polys.map_values(|p: &[F]| p@)
}

/// Sequences one after the other.
pub open spec fn concat<T>(s: Seq<Seq<T>>) -> Seq<T>
    decreases s.len(),
{
    if s.len() == 0 {
        Seq::empty()
    } else {
        concat(s.drop_last()) + s.last()
    }
}

/// Whether there is at least one polynomial, and all polynomials have the same length.
pub open spec fn same_len<T>(s: Seq<Seq<T>>) -> bool {
    &&& s.len() > 0
    &&& forall|i: int| 0 <= i < s.len() ==> (#[trigger] s[i]).len() == s[0].len()
}

pub proof fn concat_len<T>(s: Seq<Seq<T>>, n: nat)
    requires
        forall|i: int| 0 <= i < s.len() ==> (#[trigger] s[i]).len() == n,
    ensures
        concat(s).len() == s.len() * n,
    decreases s.len(),
{
    if s.len() > 0 {
        assert forall|i: int| 0 <= i < s.drop_last().len() implies (
        #[trigger] s.drop_last()[i]).len() == n by {
            assert(s.drop_last()[i] == s[i]);
        }
        concat_len(s.drop_last(), n);
        assert(s.last() == s[s.len() - 1]);
        let l = s.len() as int;
        let k = n as int;
        assert((l - 1) * k + k == l * k) by (nonlinear_arith);
    }
}

/// Flatten polynomials into a single buffer.
pub(crate) fn flatten<F: Copy>(polys: &[&[F]]) -> (r: Vec<F>)
    ensures
        r@ == concat(polys_view(polys@)),
{
    let mut flat: Vec<F> = Vec::new();
    let ghost views = polys_view(polys@);
    let mut i: usize = 0;
    assert(views.take(0) =~= Seq::empty());
    while i < polys.len()
        invariant
            i <= polys@.len(),
            views == polys_view(polys@),
            flat@ == concat(views.take(i as int)),
        decreases polys@.len() - i,
    {
        let poly = polys[i];
        let ghost before = flat@;
        let mut j: usize = 0;
        while j < poly.len()
            invariant
                j <= poly@.len(),
                flat@ == before + poly@.take(j as int),
            decreases poly@.len() - j,
        {
            flat.push(poly[j]);
            j = j + 1;
            assert(flat@ =~= before + poly@.take(j as int));
        }
        assert(poly@.take(j as int) =~= poly@);
        assert(views.take(i + 1).drop_last() =~= views.take(i as int));
        assert(views[i as int] == poly@);
        i = i + 1;
    }
    assert(views.take(i as int) =~= views);
    flat
}

/// Cut a flat buffer into rows.
pub(crate) fn reshape<F: Copy>(flat: &[F], rows: usize, width: usize) -> (r: Vec<Vec<F>>)
    requires
        flat@.len() == rows * width,
    ensures
        r@.len() == rows,
        forall|i: int|
            0 <= i < rows ==> (#[trigger] r@[i])@ == flat@.subrange(i * width, (i + 1) * width),
{
    let mut out: Vec<Vec<F>> = Vec::new();
    let mut i: usize = 0;
    assert(flat.len() <= usize::MAX);
    while i < rows
        invariant
            i <= rows,
            flat@.len() == rows * width,
            flat@.len() <= usize::MAX,
            out@.len() == i,
            forall|k: int|
                0 <= k < i ==> (#[trigger] out@[k])@ == flat@.subrange(k * width, (k + 1) * width),
        decreases rows - i,
    {
        proof {
            let ii = i as int;
            let w = width as int;
            let n = rows as int;
            assert(0 <= ii * w && (ii + 1) * w <= n * w && (ii + 1) * w == ii * w + w)
                by (nonlinear_arith)
                requires
                    0 <= ii < n,
                    w >= 0,
            ;
        }
        let start: usize = i * width;
        let end: usize = start + width;
        out.push(vstd::slice::slice_to_vec(vstd::slice::slice_subrange(flat, start, end)));
        i = i + 1;
    }
    out
}

/// Cut bytes into scalars of 32 bytes.
pub(crate) fn to_scalars(flat: &[u8], n: usize) -> (r: Vec<[u8; 32]>)
    requires
        flat@.len() == n * 32,
    ensures
        r@.len() == n,
        forall|i: int| 0 <= i < n ==> (#[trigger] r@[i])@ == flat@.subrange(32 * i, 32 * i + 32),
{
    let mut out: Vec<[u8; 32]> = Vec::new();
    let mut i: usize = 0;
    assert(flat.len() <= usize::MAX);
    while i < n
        invariant
            i <= n,
            flat@.len() == n * 32,
            flat@.len() <= usize::MAX,
            out@.len() == i,
            forall|k: int|
                0 <= k < i ==> (#[trigger] out@[k])@ == flat@.subrange(32 * k, 32 * k + 32),
        decreases n - i,
    {
        let mut arr: [u8; 32] = [0u8; 32];
        let mut k: usize = 0;
        while k < 32
            invariant
                k <= 32,
                i < n,
                flat@.len() == n * 32,
                flat@.len() <= usize::MAX,
                forall|j: int| 0 <= j < k ==> arr@[j] == flat@[32 * i + j],
            decreases 32 - k,
        {
            arr[k] = flat[32 * i + k];
            k = k + 1;
        }
        assert(arr@ =~= flat@.subrange(32 * i as int, 32 * i + 32));
        out.push(arr);
        i = i + 1;
    }
    out
}

/// A kernel for polynomial operations on a single GPU.
#[derive(Debug)]
pub struct SinglePolyOpsKernel<F> {
    program: Program,
    _phantom: PhantomData<F>,
}

/// A session that needs no bases.
pub type PolySession<'a, F> = Session<'a, F, ()>;

/// A command of a session that needs no bases.
pub type PolyCmd<F> = Cmd<F, ()>;

/// Fix the lowest variable, with the given kernel writing `len` elements to slot 2.
pub open spec fn fix_var_plan<F>(
    kernel: KernelId,
    poly: Seq<F>,
    r: F,
    elem: Elem,
    len: nat,
) -> Seq<PolyCmd<F>> {
    let n = poly.len() / 2;
    seq![
        Cmd::Upload { slot: 0, data: DataView::Scalars(poly) },
        Cmd::Upload { slot: 1, data: DataView::Scalars(seq![r]) },
        Cmd::Alloc { slot: 2, elem, len },
        Cmd::Launch {
            kernel,
            global: groups(n),
            local: LOCAL_WORK_SIZE as nat,
            args: seq![Arg::Buffer(0), Arg::Buffer(2), Arg::Buffer(1), Arg::Word(n as u32)],
        },
        Cmd::Read { slot: 2, elem, len },
    ]
}

/// The slot of the polynomial after `i` variables have been fixed.
pub open spec fn fixed_slot(i: nat) -> usize {
    if i == 0 {
        0
    } else {
        (1 + i) as usize
    }
}

/// Fix one more variable after `i`, and hand out the result, which has `len` elements.
pub open spec fn fix_next_plan<F, B>(i: nat, len: nat) -> Seq<Cmd<F, B>> {
    seq![
        Cmd::Alloc { slot: fixed_slot(i + 1), elem: Elem::Scalar, len },
        Cmd::Launch {
            kernel: KernelId::FixVarIndexed,
            global: groups(len),
            local: LOCAL_WORK_SIZE as nat,
            args: seq![
                Arg::Buffer(fixed_slot(i)),
                Arg::Buffer(fixed_slot(i + 1)),
                Arg::Buffer(1),
                Arg::Word(len as u32),
                Arg::Word(i as u32),
            ],
        },
        Cmd::Read { slot: fixed_slot(i + 1), elem: Elem::Scalar, len },
        Cmd::Free { slot: fixed_slot(i) },
    ]
}

/// Fix `k` variables of a polynomial of `len` elements, one after the other.
pub open spec fn fix_first_plan<F, B>(len: nat, k: nat) -> Seq<Cmd<F, B>>
    decreases k,
{
    if k == 0 {
        Seq::empty()
    } else {
        fix_first_plan::<F, B>(len, (k - 1) as nat) + fix_next_plan(
            (k - 1) as nat,
            halved(len, k),
        )
    }
}

/// Fix one variable for each challenge and hand out all intermediate polynomials. Nothing is done
/// if there is no challenge.
pub open spec fn fix_vars_plan<F>(poly: Seq<F>, challenges: Seq<F>) -> Seq<PolyCmd<F>> {
    if challenges.len() == 0 {
        Seq::empty()
    } else {
        seq![
            Cmd::Upload { slot: 0, data: DataView::Scalars(poly) },
            Cmd::Upload { slot: 1, data: DataView::Scalars(challenges) },
        ] + fix_first_plan(poly.len(), challenges.len())
    }
}

/// An element-wise operation on one polynomial and another buffer. On an empty polynomial it ends
/// with the upload, as the driver makes no buffer without bytes.
pub open spec fn pointwise_plan<F>(
    kernel: KernelId,
    a: Seq<F>,
    b: Seq<F>,
    args: Seq<Arg>,
) -> Seq<PolyCmd<F>> {
    if a.len() == 0 {
        seq![Cmd::Upload { slot: 0, data: DataView::Scalars(a) }]
    } else {
        seq![
            Cmd::Upload { slot: 0, data: DataView::Scalars(a) },
            Cmd::Upload { slot: 1, data: DataView::Scalars(b) },
            Cmd::Alloc { slot: 2, elem: Elem::Scalar, len: a.len() },
            Cmd::Launch {
                kernel,
                global: groups(a.len()),
                local: LOCAL_WORK_SIZE as nat,
                args: args.push(Arg::Word(a.len() as u32)),
            },
            Cmd::Read { slot: 2, elem: Elem::Scalar, len: a.len() },
        ]
    }
}

/// The linear combination of polynomials. With empty polynomials it ends with the upload, as the
/// driver makes no buffer without bytes.
pub open spec fn linear_combine_plan<F>(polys: Seq<Seq<F>>, coeffs: Seq<F>) -> Seq<PolyCmd<F>> {
    let len = polys[0].len();
    if len == 0 {
        seq![Cmd::Upload { slot: 0, data: DataView::Scalars(Seq::empty()) }]
    } else {
        seq![
            Cmd::Upload { slot: 0, data: DataView::Scalars(concat(polys)) },
            Cmd::Upload { slot: 1, data: DataView::Scalars(coeffs) },
            Cmd::Alloc { slot: 2, elem: Elem::Scalar, len },
            Cmd::Launch {
                kernel: KernelId::LinearCombine,
                global: groups(len),
                local: LOCAL_WORK_SIZE as nat,
                args: seq![
                    Arg::Buffer(0),
                    Arg::Buffer(1),
                    Arg::Buffer(2),
                    Arg::Word(polys.len() as u32),
                    Arg::Word(len as u32),
                ],
            },
            Cmd::Read { slot: 2, elem: Elem::Scalar, len },
        ]
    }
}

/// The witness polynomial for one point.
pub open spec fn witness_plan<F>(f: Seq<F>, u: F) -> Seq<PolyCmd<F>> {
    seq![
        Cmd::Upload { slot: 0, data: DataView::Scalars(f) },
        Cmd::Upload { slot: 1, data: DataView::Scalars(seq![u]) },
        Cmd::Alloc { slot: 2, elem: Elem::Scalar, len: f.len() },
        Cmd::Launch {
            kernel: KernelId::WitnessPolySequential,
            global: 1,
            local: 1,
            args: seq![Arg::Buffer(0), Arg::Buffer(2), Arg::Buffer(1), Arg::Word(f.len() as u32)],
        },
        Cmd::Read { slot: 2, elem: Elem::Scalar, len: (f.len() - 1) as nat },
    ]
}

/// The evaluations of polynomials at points.
pub open spec fn eval_plan<F>(polys: Seq<Seq<F>>, points: Seq<F>) -> Seq<PolyCmd<F>> {
    let total = polys.len() * points.len();
    seq![
        Cmd::Upload { slot: 0, data: DataView::Scalars(concat(polys)) },
        Cmd::Upload { slot: 1, data: DataView::Scalars(points) },
        Cmd::Alloc { slot: 2, elem: Elem::Scalar, len: total },
        Cmd::Launch {
            kernel: KernelId::EvalUnivariateBatch,
            global: groups(total),
            local: LOCAL_WORK_SIZE as nat,
            args: seq![
                Arg::Buffer(0),
                Arg::Buffer(1),
                Arg::Buffer(2),
                Arg::Word(polys.len() as u32),
                Arg::Word(polys[0].len() as u32),
                Arg::Word(points.len() as u32),
            ],
        },
        Cmd::Read { slot: 2, elem: Elem::Scalar, len: total },
    ]
}

/// The witness polynomials for several points.
pub open spec fn witness_batch_plan<F>(f: Seq<F>, points: Seq<F>) -> Seq<PolyCmd<F>> {
    let total = (points.len() * (f.len() - 1)) as nat;
    seq![
        Cmd::Upload { slot: 0, data: DataView::Scalars(f) },
        Cmd::Upload { slot: 1, data: DataView::Scalars(points) },
        Cmd::Alloc { slot: 2, elem: Elem::Scalar, len: total },
        Cmd::Launch {
            kernel: KernelId::WitnessPolyBatch,
            global: groups(points.len()),
            local: LOCAL_WORK_SIZE as nat,
            args: seq![
                Arg::Buffer(0),
                Arg::Buffer(1),
                Arg::Buffer(2),
                Arg::Word(f.len() as u32),
                Arg::Word(points.len() as u32),
            ],
        },
        Cmd::Read { slot: 2, elem: Elem::Scalar, len: total },
    ]
}

/// The conversion to scalar bytes. Nothing is done if there are no elements.
pub open spec fn to_scalar_plan<F>(elements: Seq<F>) -> Seq<PolyCmd<F>> {
    let n = elements.len();
    if n == 0 {
        Seq::empty()
    } else {
        seq![
            Cmd::Upload { slot: 0, data: DataView::Scalars(elements) },
            Cmd::Alloc { slot: 1, elem: Elem::Byte, len: n * 32 },
            Cmd::Launch {
                kernel: KernelId::ToScalarBytes,
                global: groups(n),
                local: LOCAL_WORK_SIZE as nat,
                args: seq![Arg::Buffer(0), Arg::Buffer(1), Arg::Word(n as u32)],
            },
            Cmd::Read { slot: 1, elem: Elem::Byte, len: n * 32 },
        ]
    }
}

/// What is known after the variables for some challenges have been asked to be fixed.
pub enum FixVars<'a, F> {
    /// There is nothing to fix: the value.
    Value(F),
    /// The session that fixes the variables.
    Run(PolySession<'a, F>),
}

impl<F: Copy> SinglePolyOpsKernel<F> {
    /// The program whose kernels are run.
    pub closed spec fn spec_program(&self) -> Program {
        self.program
    }

    /// Create a new polynomial operations kernel for the given program.
    pub fn create(program: Program) -> (r: EcResult<Self>)
        ensures
            r matches Ok(k) && k.spec_program() == program,
    {
        Ok(SinglePolyOpsKernel { program, _phantom: PhantomData })
    }

    /// The program whose kernels are run.
    pub fn program(&self) -> (r: &Program)
        ensures
            *r == self.spec_program(),
    {
        &self.program
    }

    /// Fix the lowest variable of a multilinear polynomial.
    ///
    /// Given a polynomial in evaluation form of length 2n, computes a new polynomial
    /// of length n by fixing the lowest variable to value `r`.
    ///
    /// Formula: `out[j] = r * (poly[2j+1] - poly[2j]) + poly[2j]`
    ///
    /// This is equivalent to linear interpolation between adjacent pairs.
    pub fn fix_var<'a>(&self, poly: &'a [F], r: &F) -> (s: PolySession<'a, F>)
        requires
            poly@.len() >= 2,
            vstd::arithmetic::power2::is_pow2(poly@.len() as int),
        ensures
            s.wf(),
            s@ == fix_var_plan(KernelId::FixVar, poly@, *r, Elem::Scalar, poly@.len() / 2),
    {
        let n: usize = poly.len() / 2;
        let mut s: PolySession<'a, F> = Session::new();
        s.create_buffer_from(0, HostData::Scalars(poly));
        s.create_buffer_from(1, HostData::ScalarVec(vec![*r]));
        s.create_buffer(2, Elem::Scalar, n);
        s.launch(
            KernelId::FixVar,
            div_ceil(n, LOCAL_WORK_SIZE),
            LOCAL_WORK_SIZE,
            vec![Arg::Buffer(0), Arg::Buffer(2), Arg::Buffer(1), Arg::Word(n as u32)],
        );
        s.read_buffer(2, Elem::Scalar, n);
        assert(s@ =~~= fix_var_plan(KernelId::FixVar, poly@, *r, Elem::Scalar, poly@.len() / 2));
        s
    }

    /// Fix multiple variables iteratively.
    ///
    /// Starting from a polynomial of length 2^k, fixes k variables to the given
    /// challenge values, which leaves a constant value.
    ///
    /// All operations are performed in a single GPU session.
    pub fn fix_vars<'a>(&self, poly: &'a [F], challenges: &'a [F]) -> (r: FixVars<'a, F>)
        requires
            vstd::arithmetic::power2::is_pow2(poly@.len() as int),
            challenges@.len() <= crate::arith::log2(poly@.len()),
        ensures
            challenges@.len() == 0 ==> r == FixVars::<'a, F>::Value(poly@[0]),
            challenges@.len() > 0 ==> (r matches FixVars::Run(s) && s.wf() && s@ == fix_vars_plan(
                poly@,
                challenges@,
            )),
    {
        proof {
            reveal(vstd::arithmetic::power2::is_pow2);
        }
        if challenges.len() == 0 {
            return FixVars::Value(poly[0]);
        }
        FixVars::Run(self.fix_vars_with_intermediates(poly, challenges))
    }

    /// The result of [`SinglePolyOpsKernel::fix_vars`], from the intermediate polynomials that the
    /// device handed back: the first element of the last one.
    pub fn finish_fix_vars(&self, intermediates: &Vec<Vec<F>>) -> (r: F)
        requires
            intermediates@.len() > 0,
            intermediates@.last()@.len() > 0,
        ensures
            r == intermediates@.last()@[0],
    {
        intermediates[intermediates.len() - 1][0]
    }

    /// Fix multiple variables and return all intermediate polynomials.
    ///
    /// This is optimized for HyperKZG Phase 1: it performs all variable fixings
    /// in a single GPU session, minimizing data transfers.
    ///
    /// The device hands back a vector of polynomials:
    /// - polys[0] is the result after fixing the first variable
    /// - polys[i] is the result after fixing variables 0..=i
    /// - The original polynomial is NOT included in the output
    ///
    /// Each intermediate polynomial is used for MSM commitments in HyperKZG.
    pub fn fix_vars_with_intermediates<'a>(&self, poly: &'a [F], challenges: &'a [F]) -> (s:
        PolySession<'a, F>)
        requires
            vstd::arithmetic::power2::is_pow2(poly@.len() as int),
            challenges@.len() <= crate::arith::log2(poly@.len()),
        ensures
            s.wf(),
            s@ == fix_vars_plan(poly@, challenges@),
    {
        let mut s: PolySession<'a, F> = Session::new();
        if challenges.len() == 0 {
            return s;
        }
        let num_challenges: usize = challenges.len();
        // Upload initial polynomial once
        s.create_buffer_from(0, HostData::Scalars(poly));
        // Upload ALL challenges in a single buffer
        s.create_buffer_from(1, HostData::Scalars(challenges));
        fix_in_turn(&mut s, poly.len(), num_challenges);
        assert(s@ =~= fix_vars_plan(poly@, challenges@));
        s
    }

    /// Linear combination of polynomials: out = sum(coeffs[i] * polys[i])
    ///
    /// All polynomials must have the same length.
    pub fn linear_combine<'a>(&self, polys: &[&[F]], coeffs: &'a [F]) -> (s: PolySession<'a, F>)
        requires
            polys@.len() == coeffs@.len(),
            same_len(polys_view(polys@)),
        ensures
            s.wf(),
            s@ == linear_combine_plan(polys_view(polys@), coeffs@),
    {
        let poly_len: usize = polys[0].len();
        let num_polys: usize = polys.len();
        let flat_polys = flatten(polys);
        let mut s: PolySession<'a, F> = Session::new();
        proof {
            concat_len(polys_view(polys@), poly_len as nat);
        }
        s.create_buffer_from(0, HostData::ScalarVec(flat_polys));
        if poly_len == 0 {
            assert(flat_polys@ =~= Seq::empty());
            assert(s@ =~~= linear_combine_plan(polys_view(polys@), coeffs@));
            return s;
        }
        s.create_buffer_from(1, HostData::Scalars(coeffs));
        s.create_buffer(2, Elem::Scalar, poly_len);
        s.launch(
            KernelId::LinearCombine,
            div_ceil(poly_len, LOCAL_WORK_SIZE),
            LOCAL_WORK_SIZE,
            vec![
                Arg::Buffer(0),
                Arg::Buffer(1),
                Arg::Buffer(2),
                Arg::Word(num_polys as u32),
                Arg::Word(poly_len as u32),
            ],
        );
        s.read_buffer(2, Elem::Scalar, poly_len);
        assert(s@ =~~= linear_combine_plan(polys_view(polys@), coeffs@));
        s
    }

    /// Compute witness polynomial for KZG opening.
    ///
    /// Given f(x) and evaluation point u, computes h(x) where:
    /// f(x) = h(x) * (x - u) + f(u)
    ///
    /// This uses the recurrence: h[i-1] = f[i] + h[i] * u
    pub fn witness_poly<'a>(&self, f: &'a [F], u: &F) -> (s: PolySession<'a, F>)
        requires
            f@.len() > 0,
        ensures
            s.wf(),
            s@ == witness_plan(f@, *u),
    {
        let n: usize = f.len();
        let mut s: PolySession<'a, F> = Session::new();
        s.create_buffer_from(0, HostData::Scalars(f));
        s.create_buffer_from(1, HostData::ScalarVec(vec![*u]));
        // h has length n-1, but we allocate n for simplicity
        s.create_buffer(2, Elem::Scalar, n);
        // Use sequential kernel for now (single thread)
        s.launch(
            KernelId::WitnessPolySequential,
            1,
            1,
            vec![Arg::Buffer(0), Arg::Buffer(2), Arg::Buffer(1), Arg::Word(n as u32)],
        );
        s.read_buffer(2, Elem::Scalar, n - 1);
        assert(s@ =~~= witness_plan(f@, *u));
        s
    }

    /// Scale a polynomial by a scalar: out[i] = poly[i] * scalar
    pub fn scale_poly<'a>(&self, poly: &'a [F], scalar: &F) -> (s: PolySession<'a, F>)
        ensures
            s.wf(),
            s@ == pointwise_plan(
                KernelId::ScalePoly,
                poly@,
                seq![*scalar],
                seq![Arg::Buffer(0), Arg::Buffer(2), Arg::Buffer(1)],
            ),
    {
        let n: usize = poly.len();
        let mut s: PolySession<'a, F> = Session::new();
        s.create_buffer_from(0, HostData::Scalars(poly));
        if n == 0 {
            assert(s@ =~~= seq![Cmd::Upload { slot: 0, data: DataView::Scalars(poly@) }]);
            return s;
        }
        s.create_buffer_from(1, HostData::ScalarVec(vec![*scalar]));
        s.create_buffer(2, Elem::Scalar, n);
        s.launch(
            KernelId::ScalePoly,
            div_ceil(n, LOCAL_WORK_SIZE),
            LOCAL_WORK_SIZE,
            vec![Arg::Buffer(0), Arg::Buffer(2), Arg::Buffer(1), Arg::Word(n as u32)],
        );
        s.read_buffer(2, Elem::Scalar, n);
        assert(s@ =~~= pointwise_plan(
            KernelId::ScalePoly,
            poly@,
            seq![*scalar],
            seq![Arg::Buffer(0), Arg::Buffer(2), Arg::Buffer(1)],
        ));
        s
    }

    fn combine_two<'a>(&self, kernel: KernelId, a: &'a [F], b: &'a [F]) -> (s: PolySession<'a, F>)
        requires
            a@.len() == b@.len(),
        ensures
            s.wf(),
            s@ == pointwise_plan(
                kernel,
                a@,
                b@,
                seq![Arg::Buffer(0), Arg::Buffer(1), Arg::Buffer(2)],
            ),
    {
        let n: usize = a.len();
        let mut s: PolySession<'a, F> = Session::new();
        s.create_buffer_from(0, HostData::Scalars(a));
        if n == 0 {
            assert(s@ =~~= seq![Cmd::Upload { slot: 0, data: DataView::Scalars(a@) }]);
            return s;
        }
        s.create_buffer_from(1, HostData::Scalars(b));
        s.create_buffer(2, Elem::Scalar, n);
        s.launch(
            kernel,
            div_ceil(n, LOCAL_WORK_SIZE),
            LOCAL_WORK_SIZE,
            vec![Arg::Buffer(0), Arg::Buffer(1), Arg::Buffer(2), Arg::Word(n as u32)],
        );
        s.read_buffer(2, Elem::Scalar, n);
        assert(s@ =~~= pointwise_plan(
            kernel,
            a@,
            b@,
            seq![Arg::Buffer(0), Arg::Buffer(1), Arg::Buffer(2)],
        ));
        s
    }

    /// Add two polynomials: out[i] = a[i] + b[i]
    pub fn add_poly<'a>(&self, a: &'a [F], b: &'a [F]) -> (s: PolySession<'a, F>)
        requires
            a@.len() == b@.len(),
        ensures
            s.wf(),
            s@ == pointwise_plan(
                KernelId::AddPoly,
                a@,
                b@,
                seq![Arg::Buffer(0), Arg::Buffer(1), Arg::Buffer(2)],
            ),
    {
        self.combine_two(KernelId::AddPoly, a, b)
    }

    /// Subtract two polynomials: out[i] = a[i] - b[i]
    pub fn sub_poly<'a>(&self, a: &'a [F], b: &'a [F]) -> (s: PolySession<'a, F>)
        requires
            a@.len() == b@.len(),
        ensures
            s.wf(),
            s@ == pointwise_plan(
                KernelId::SubPoly,
                a@,
                b@,
                seq![Arg::Buffer(0), Arg::Buffer(1), Arg::Buffer(2)],
            ),
    {
        self.combine_two(KernelId::SubPoly, a, b)
    }

    /// Batch evaluate multiple polynomials at multiple points.
    ///
    /// Treats each polynomial as univariate in coefficient form and evaluates
    /// at all given points using Horner's method on the GPU.
    ///
    /// All polynomials must have the same length.
    pub fn eval_univariate_batch<'a>(&self, polys: &[&[F]], points: &'a [F]) -> (s: PolySession<
        'a,
        F,
    >)
        requires
            same_len(polys_view(polys@)),
            points@.len() > 0,
            polys@.len() * points@.len() <= usize::MAX,
        ensures
            s.wf(),
            s@ == eval_plan(polys_view(polys@), points@),
    {
        let poly_len: usize = polys[0].len();
        let num_polys: usize = polys.len();
        let num_points: usize = points.len();
        let flat_polys = flatten(polys);
        assert(num_polys * num_points > 0) by (nonlinear_arith)
            requires
                num_polys > 0,
                num_points > 0,
        ;
        let total_evals: usize = num_polys * num_points;
        let mut s: PolySession<'a, F> = Session::new();
        s.create_buffer_from(0, HostData::ScalarVec(flat_polys));
        s.create_buffer_from(1, HostData::Scalars(points));
        s.create_buffer(2, Elem::Scalar, total_evals);
        s.launch(
            KernelId::EvalUnivariateBatch,
            div_ceil(total_evals, LOCAL_WORK_SIZE),
            LOCAL_WORK_SIZE,
            vec![
                Arg::Buffer(0),
                Arg::Buffer(1),
                Arg::Buffer(2),
                Arg::Word(num_polys as u32),
                Arg::Word(poly_len as u32),
                Arg::Word(num_points as u32),
            ],
        );
        s.read_buffer(2, Elem::Scalar, total_evals);
        assert(s@ =~~= eval_plan(polys_view(polys@), points@));
        s
    }

    /// The result of [`SinglePolyOpsKernel::eval_univariate_batch`], from what the device handed
    /// back.
    ///
    /// Returns a 2D vector: `results[point_idx][poly_idx]` = evaluation of poly_idx at point_idx.
    pub fn finish_eval(&self, flat_results: &[F], num_points: usize, num_polys: usize) -> (r: Vec<
        Vec<F>,
    >)
        requires
            flat_results@.len() == num_points * num_polys,
        ensures
            r@.len() == num_points,
            forall|i: int|
                0 <= i < num_points ==> (#[trigger] r@[i])@ == flat_results@.subrange(
                    i * num_polys,
                    (i + 1) * num_polys,
                ),
    {
        reshape(flat_results, num_points, num_polys)
    }

    /// Batch compute witness polynomials for KZG opening at multiple points.
    ///
    /// Given polynomial f(x) and evaluation points, computes witness polynomials h_i(x) where:
    /// f(x) = h_i(x) * (x - u[i]) + f(u[i])
    pub fn witness_poly_batch<'a>(&self, f: &'a [F], points: &'a [F]) -> (s: PolySession<'a, F>)
        requires
            f@.len() > 1,
            points@.len() > 0,
            points@.len() * (f@.len() - 1) <= usize::MAX,
        ensures
            s.wf(),
            s@ == witness_batch_plan(f@, points@),
    {
        let n: usize = f.len();
        let num_points: usize = points.len();
        let witness_len: usize = n - 1;
        assert(num_points * witness_len > 0) by (nonlinear_arith)
            requires
                num_points > 0,
                witness_len > 0,
        ;
        // Total output: num_points witness polynomials, each of length n-1
        let total_output: usize = num_points * witness_len;
        let mut s: PolySession<'a, F> = Session::new();
        s.create_buffer_from(0, HostData::Scalars(f));
        s.create_buffer_from(1, HostData::Scalars(points));
        s.create_buffer(2, Elem::Scalar, total_output);
        // One thread per point (each computes a full witness polynomial sequentially)
        s.launch(
            KernelId::WitnessPolyBatch,
            div_ceil(num_points, LOCAL_WORK_SIZE),
            LOCAL_WORK_SIZE,
            vec![
                Arg::Buffer(0),
                Arg::Buffer(1),
                Arg::Buffer(2),
                Arg::Word(n as u32),
                Arg::Word(num_points as u32),
            ],
        );
        s.read_buffer(2, Elem::Scalar, total_output);
        assert(s@ =~~= witness_batch_plan(f@, points@));
        s
    }

    /// The result of [`SinglePolyOpsKernel::witness_poly_batch`], from what the device handed back:
    /// one witness polynomial of `witness_len` elements for each point.
    pub fn finish_witness(&self, flat_witnesses: &[F], num_points: usize, witness_len: usize) -> (r:
        Vec<Vec<F>>)
        requires
            flat_witnesses@.len() == num_points * witness_len,
        ensures
            r@.len() == num_points,
            forall|i: int|
                0 <= i < num_points ==> (#[trigger] r@[i])@ == flat_witnesses@.subrange(
                    i * witness_len,
                    (i + 1) * witness_len,
                ),
    {
        reshape(flat_witnesses, num_points, witness_len)
    }

    /// Convert field elements from Montgomery form to 32-byte little-endian scalars.
    ///
    /// This is used to prepare field elements for MSM without CPU round-trip.
    /// Each field element is converted to 32 bytes in little-endian format.
    pub fn to_scalar_bytes<'a>(&self, field_elements: &'a [F]) -> (s: PolySession<'a, F>)
        requires
            field_elements@.len() * 32 <= usize::MAX,
        ensures
            s.wf(),
            s@ == to_scalar_plan(field_elements@),
    {
        let mut s: PolySession<'a, F> = Session::new();
        if field_elements.len() == 0 {
            return s;
        }
        let n: usize = field_elements.len();
        s.create_buffer_from(0, HostData::Scalars(field_elements));
        // Output is n * 32 bytes
        s.create_buffer(1, Elem::Byte, n * 32);
        s.launch(
            KernelId::ToScalarBytes,
            div_ceil(n, LOCAL_WORK_SIZE),
            LOCAL_WORK_SIZE,
            vec![Arg::Buffer(0), Arg::Buffer(1), Arg::Word(n as u32)],
        );
        s.read_buffer(1, Elem::Byte, n * 32);
        assert(s@ =~~= to_scalar_plan(field_elements@));
        s
    }

    /// Combined fix_var + to_scalar_bytes operation.
    ///
    /// Performs fix_var on the polynomial and immediately converts the result
    /// to scalar bytes format, avoiding intermediate memory storage.
    ///
    /// This is optimized for the HyperKZG fused operation where we need to
    /// commit to intermediate polynomials.
    pub fn fix_var_to_scalar<'a>(&self, poly: &'a [F], r: &F) -> (s: PolySession<'a, F>)
        requires
            poly@.len() >= 2,
            vstd::arithmetic::power2::is_pow2(poly@.len() as int),
            poly@.len() / 2 * 32 <= usize::MAX,
        ensures
            s.wf(),
            s@ == fix_var_plan(
                KernelId::FixVarToScalar,
                poly@,
                *r,
                Elem::Byte,
                poly@.len() / 2 * 32,
            ),
    {
        let n: usize = poly.len() / 2;
        let mut s: PolySession<'a, F> = Session::new();
        s.create_buffer_from(0, HostData::Scalars(poly));
        s.create_buffer_from(1, HostData::ScalarVec(vec![*r]));
        // Output is n * 32 bytes
        s.create_buffer(2, Elem::Byte, n * 32);
        s.launch(
            KernelId::FixVarToScalar,
            div_ceil(n, LOCAL_WORK_SIZE),
            LOCAL_WORK_SIZE,
            vec![Arg::Buffer(0), Arg::Buffer(2), Arg::Buffer(1), Arg::Word(n as u32)],
        );
        s.read_buffer(2, Elem::Byte, n * 32);
        assert(s@ =~~= fix_var_plan(
            KernelId::FixVarToScalar,
            poly@,
            *r,
            Elem::Byte,
            poly@.len() / 2 * 32,
        ));
        s
    }

    /// The `n` scalars of 32 bytes that the device handed back.
    pub fn finish_scalars(&self, flat_bytes: &[u8], n: usize) -> (r: Vec<[u8; 32]>)
        requires
            flat_bytes@.len() == n * 32,
        ensures
            r@.len() == n,
            forall|i: int|
                0 <= i < n ==> (#[trigger] r@[i])@ == flat_bytes@.subrange(32 * i, 32 * i + 32),
    {
        to_scalars(flat_bytes, n)
    }
}

/// Fix `k` variables of the polynomial of `len` elements in slot 0 to the values in slot 1.
pub(crate) fn fix_in_turn<'a, F, B>(s: &mut Session<'a, F, B>, len: usize, k: usize)
    requires
        old(s).wf(),
        old(s).buffers().contains_key(0),
        old(s).buffers().contains_key(1),
        len >= 1,
        k <= crate::arith::log2(len as nat),
    ensures
        final(s).wf(),
        final(s)@ == old(s)@ + fix_first_plan::<F, B>(len as nat, k as nat),
{
    let ghost before = s@;
    let mut current_len: usize = len;
    let mut i: usize = 0;
    proof {
        crate::arith::log2_bounds(len as nat);
        if crate::arith::log2(len as nat) >= 64 {
            vstd::arithmetic::power2::lemma2_to64_rest();
            if crate::arith::log2(len as nat) > 64 {
                vstd::arithmetic::power2::lemma_pow2_strictly_increases(
                    64,
                    crate::arith::log2(len as nat),
                );
            }
        }
    }
    while i < k
        invariant
            i <= k,
            len >= 1,
            k <= crate::arith::log2(len as nat),
            k < 64,
            s.wf(),
            s.buffers().contains_key(fixed_slot(i as nat)),
            s.buffers().contains_key(1),
            current_len == halved(len as nat, i as nat),
            s@ == before + fix_first_plan::<F, B>(len as nat, i as nat),
        decreases k - i,
    {
        let next_len: usize = current_len / 2;
        proof {
            halved_positive(len as nat, (i + 1) as nat);
        }
        let source: usize = if i == 0 {
            0
        } else {
            1 + i
        };
        let target: usize = 2 + i;
        let ghost here = s@;
        s.create_buffer(target, Elem::Scalar, next_len);
        s.launch(
            KernelId::FixVarIndexed,
            div_ceil(next_len, LOCAL_WORK_SIZE),
            LOCAL_WORK_SIZE,
            vec![
                Arg::Buffer(source),
                Arg::Buffer(target),
                Arg::Buffer(1),
                Arg::Word(next_len as u32),
                Arg::Word(i as u32),
            ],
        );
        // Download intermediate result
        s.read_buffer(target, Elem::Scalar, next_len);
        s.free(source);
        proof {
            assert(s@ =~~= here + fix_next_plan::<F, B>(i as nat, next_len as nat));
            assert(s@ =~= before + fix_first_plan::<F, B>(len as nat, (i + 1) as nat));
        }
        current_len = next_len;
        i = i + 1;
    }
    assert(s@ =~= before + fix_first_plan::<F, B>(len as nat, k as nat));
}

/// A struct that contains polynomial operations kernels for multiple devices.
#[derive(Debug)]
pub struct PolyOpsKernel<F> {
    kernels: Vec<SinglePolyOpsKernel<F>>,
}

impl<F: Copy> PolyOpsKernel<F> {
    /// The kernels, one for each program.
    pub closed spec fn spec_kernels(&self) -> Seq<SinglePolyOpsKernel<F>> {
        self.kernels@
    }

    /// Create new kernels, one for each given device.
    pub fn create(programs: Vec<Program>, _devices: &[Device]) -> (r: EcResult<Self>)
        ensures
            r matches Ok(k) && k.spec_kernels().len() == programs@.len() && forall|i: int|
                0 <= i < programs@.len() ==> (#[trigger] k.spec_kernels()[i]).spec_program()
                    == programs@[i],
    {
        let ghost given = programs@;
        let n: usize = programs.len();
        let mut rest: Vec<Program> = programs;
        let mut kernels: Vec<SinglePolyOpsKernel<F>> = Vec::new();
        let mut i: usize = 0;
        while i < n
            invariant
                i <= n,
                n == given.len(),
                kernels@.len() == i,
                rest@ =~= given.skip(i as int),
                forall|j: int|
                    0 <= j < i ==> (#[trigger] kernels@[j]).spec_program() == given[j],
            decreases n - i,
        {
            match SinglePolyOpsKernel::create(rest.remove(0)) {
                Ok(kernel) => {
                    kernels.push(kernel);
                },
                Err(e) => {
                    return Err(e);
                },
            }
            i = i + 1;
        }
        Ok(PolyOpsKernel { kernels })
    }

    /// Get the first kernel (for single-GPU operations).
    pub fn kernel(&self) -> (r: &SinglePolyOpsKernel<F>)
        requires
            self.spec_kernels().len() > 0,
        ensures
            *r == self.spec_kernels()[0],
    {
        &self.kernels[0]
    }

    /// Fix the lowest variable of a multilinear polynomial.
    pub fn fix_var<'a>(&self, poly: &'a [F], r: &F) -> (s: PolySession<'a, F>)
        requires
            self.spec_kernels().len() > 0,
            poly@.len() >= 2,
            vstd::arithmetic::power2::is_pow2(poly@.len() as int),
        ensures
            s.wf(),
            s@ == fix_var_plan(KernelId::FixVar, poly@, *r, Elem::Scalar, poly@.len() / 2),
    {
        self.kernels[0].fix_var(poly, r)
    }

    /// Fix multiple variables iteratively.
    pub fn fix_vars<'a>(&self, poly: &'a [F], challenges: &'a [F]) -> (r: FixVars<'a, F>)
        requires
            self.spec_kernels().len() > 0,
            vstd::arithmetic::power2::is_pow2(poly@.len() as int),
            challenges@.len() <= crate::arith::log2(poly@.len()),
        ensures
            challenges@.len() == 0 ==> r == FixVars::<'a, F>::Value(poly@[0]),
            challenges@.len() > 0 ==> (r matches FixVars::Run(s) && s.wf() && s@ == fix_vars_plan(
                poly@,
                challenges@,
            )),
    {
        self.kernels[0].fix_vars(poly, challenges)
    }

    /// Linear combination of polynomials.
    pub fn linear_combine<'a>(&self, polys: &[&[F]], coeffs: &'a [F]) -> (s: PolySession<'a, F>)
        requires
            self.spec_kernels().len() > 0,
            polys@.len() == coeffs@.len(),
            same_len(polys_view(polys@)),
        ensures
            s.wf(),
            s@ == linear_combine_plan(polys_view(polys@), coeffs@),
    {
        self.kernels[0].linear_combine(polys, coeffs)
    }

    /// Compute witness polynomial for KZG opening.
    pub fn witness_poly<'a>(&self, f: &'a [F], u: &F) -> (s: PolySession<'a, F>)
        requires
            self.spec_kernels().len() > 0,
            f@.len() > 0,
        ensures
            s.wf(),
            s@ == witness_plan(f@, *u),
    {
        self.kernels[0].witness_poly(f, u)
    }

    /// Batch evaluate multiple polynomials at multiple points.
    pub fn eval_univariate_batch<'a>(&self, polys: &[&[F]], points: &'a [F]) -> (s: PolySession<
        'a,
        F,
    >)
        requires
            self.spec_kernels().len() > 0,
            same_len(polys_view(polys@)),
            points@.len() > 0,
            polys@.len() * points@.len() <= usize::MAX,
        ensures
            s.wf(),
            s@ == eval_plan(polys_view(polys@), points@),
    {
        self.kernels[0].eval_univariate_batch(polys, points)
    }

    /// Batch compute witness polynomials for multiple points.
    pub fn witness_poly_batch<'a>(&self, f: &'a [F], points: &'a [F]) -> (s: PolySession<'a, F>)
        requires
            self.spec_kernels().len() > 0,
            f@.len() > 1,
            points@.len() > 0,
            points@.len() * (f@.len() - 1) <= usize::MAX,
        ensures
            s.wf(),
            s@ == witness_batch_plan(f@, points@),
    {
        self.kernels[0].witness_poly_batch(f, points)
    }

    /// Convert field elements to scalar bytes on GPU.
    pub fn to_scalar_bytes<'a>(&self, field_elements: &'a [F]) -> (s: PolySession<'a, F>)
        requires
            self.spec_kernels().len() > 0,
            field_elements@.len() * 32 <= usize::MAX,
        ensures
            s.wf(),
            s@ == to_scalar_plan(field_elements@),
    {
        self.kernels[0].to_scalar_bytes(field_elements)
    }

    /// Combined fix_var + to_scalar_bytes operation.
    pub fn fix_var_to_scalar<'a>(&self, poly: &'a [F], r: &F) -> (s: PolySession<'a, F>)
        requires
            self.spec_kernels().len() > 0,
            poly@.len() >= 2,
            vstd::arithmetic::power2::is_pow2(poly@.len() as int),
            poly@.len() / 2 * 32 <= usize::MAX,
        ensures
            s.wf(),
            s@ == fix_var_plan(
                KernelId::FixVarToScalar,
                poly@,
                *r,
                Elem::Byte,
                poly@.len() / 2 * 32,
            ),
    {
        self.kernels[0].fix_var_to_scalar(poly, r)
    }
}

} // verus!
