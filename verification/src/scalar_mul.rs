//! Many multiples of one point.
//!
//! The scalars are cut into windows. A table holds, for each window and each value that a window
//! can have, the multiple of the point that this window contributes, so that the device only has
//! to look up one entry per window and add them up.

use vstd::prelude::*;

use crate::arith::{div_ceil, pow2_usize};
use crate::combined_ops::Either;
use crate::curve::GpuAffine;
use crate::fused_commit::{launch_to_scalars, FusedPolyCommit};
use crate::fused_msm::{BN254_SCALAR_BITS, FIELD_WORK_SIZE};
use crate::group::Group;
use crate::session::{Arg, Cmd, DataView, Elem, HostData, KernelId, Session};

verus! {

/// The table.
pub const TABLE: usize = 0;

/// The scalars in Montgomery form.
pub const MONT_SCALARS: usize = 1;

/// The scalars in standard form.
pub const STANDARD_SCALARS: usize = 2;

/// The multiples.
pub const MULTIPLES: usize = 3;

/// The number of bits of a window for `n` scalars: 3 for a few scalars, the logarithm of `n` to the
/// base `e^0.69` rounded down for more of them, and at most 16.
pub open spec fn mul_window(n: nat) -> nat {
    if n < 32 {
        3
    } else if n < 63 {
        5
    } else if n < 126 {
        6
    } else if n < 250 {
        7
    } else if n < 498 {
        8
    } else if n < 993 {
        9
    } else if n < 1979 {
        10
    } else if n < 3945 {
        11
    } else if n < 7864 {
        12
    } else if n < 15678 {
        13
    } else if n < 31258 {
        14
    } else if n < 62318 {
        15
    } else {
        16
    }
}

/// How scalars are cut into windows.
#[derive(Copy, Clone, Debug, PartialEq, Eq, Structural)]
pub struct TableShape {
    /// The number of bits of a window.
    pub window: usize,
    /// The number of windows.
    pub num_windows: usize,
    /// The number of values of a window.
    pub in_window: usize,
}

impl TableShape {
    /// The windows cover the bits of a scalar, and there are no more than it takes.
    pub open spec fn wf(&self) -> bool {
        &&& 3 <= self.window <= 16
        &&& self.num_windows == crate::arith::ceil_div(
            BN254_SCALAR_BITS as int,
            self.window as int,
        )
        &&& self.in_window == vstd::arithmetic::power2::pow2(self.window as nat)
    }

    /// The number of entries.
    pub open spec fn entries(&self) -> nat {
        (self.num_windows * self.in_window) as nat
    }

    /// The number of bits of window `outer`: fewer for the last window where the bits do not come
    /// out even.
    pub open spec fn bits(&self, outer: nat) -> nat {
        if outer + 1 == self.num_windows {
            (BN254_SCALAR_BITS - (self.num_windows - 1) * self.window) as nat
        } else {
            self.window as nat
        }
    }

    /// The number of entries of window `outer` that stand for a value of it.
    pub open spec fn filled(&self, outer: nat) -> nat {
        vstd::arithmetic::power2::pow2(self.bits(outer))
    }

    /// The value of window `outer` of a scalar.
    pub open spec fn digit(&self, scalar: nat, outer: nat) -> nat {
        (scalar / vstd::arithmetic::power2::pow2(outer * self.window as nat))
            % vstd::arithmetic::power2::pow2(self.window as nat)
    }

    /// The bounds that the definitions give.
    pub proof fn bounds(&self)
        requires
            self.wf(),
        ensures
            16 <= self.num_windows <= 85,
            8 <= self.in_window <= 0x1_0000,
            0 < self.entries() <= 85 * 0x1_0000,
            (self.num_windows - 1) * self.window < BN254_SCALAR_BITS <= self.num_windows
                * self.window,
    {
        crate::arith::ceil_div_least(BN254_SCALAR_BITS as int, self.window as int);
        vstd::arithmetic::power2::lemma2_to64();
        if self.window > 3 {
            vstd::arithmetic::power2::lemma_pow2_strictly_increases(3, self.window as nat);
        }
        if self.window < 16 {
            vstd::arithmetic::power2::lemma_pow2_strictly_increases(self.window as nat, 16);
        }
        let n = self.num_windows as int;
        let w = self.window as int;
        let m = self.in_window as int;
        assert(16 <= n <= 85) by (nonlinear_arith)
            requires
                (n - 1) * w < 254,
                254 <= n * w,
                3 <= w <= 16,
        ;
        assert(0 < n * m <= 85 * 0x1_0000) by (nonlinear_arith)
            requires
                16 <= n <= 85,
                8 <= m <= 0x1_0000,
        ;
    }

    /// The shape for `n` scalars.
    pub open spec fn of(n: nat) -> Self {
        TableShape {
            window: mul_window(n) as usize,
            num_windows: crate::arith::ceil_div(
                BN254_SCALAR_BITS as int,
                mul_window(n) as int,
            ) as usize,
            in_window: vstd::arithmetic::power2::pow2(mul_window(n)) as usize,
        }
    }

    /// The shape for `n` scalars.
    pub fn new(n: usize) -> (r: Self)
        ensures
            r.wf(),
            r == TableShape::of(n as nat),
    {
        let window: usize = if n < 32 {
            3
        } else if n < 63 {
            5
        } else if n < 126 {
            6
        } else if n < 250 {
            7
        } else if n < 498 {
            8
        } else if n < 993 {
            9
        } else if n < 1979 {
            10
        } else if n < 3945 {
            11
        } else if n < 7864 {
            12
        } else if n < 15678 {
            13
        } else if n < 31258 {
            14
        } else if n < 62318 {
            15
        } else {
            16
        };
        TableShape {
            window,
            num_windows: div_ceil(BN254_SCALAR_BITS, window),
            in_window: pow2_usize(window),
        }
    }
}

/// What entry `inner` of window `outer` stands for.
pub open spec fn entry_of<G: Group>(
    base: G::Point,
    t: TableShape,
    outer: nat,
    inner: nat,
) -> G::Point {
    if inner < t.filled(outer) {
        crate::group::times::<G>(
            inner,
            crate::group::doubled::<G>(base, outer * t.window as nat),
        )
    } else {
        G::identity()
    }
}

/// What entry `i` of a table stands for, with the entries of each window in a row.
pub open spec fn entry<G: Group>(base: G::Point, t: TableShape, i: int) -> G::Point {
    entry_of::<G>(base, t, (i / t.in_window as int) as nat, (i % t.in_window as int) as nat)
}

/// Whether a table holds the multiples of a point.
pub open spec fn is_table<G: GpuAffine>(
    table: Seq<G::GpuRepr>,
    base: <G::Group as Group>::Point,
    t: TableShape,
) -> bool {
    &&& table.len() == t.entries()
    &&& forall|i: int|
        0 <= i < table.len() ==> G::represents(
            #[trigger] table[i],
            entry::<G::Group>(base, t, i),
        )
}

/// Append the entries of a window.
fn push_window<G: GpuAffine>(
    table: &mut Vec<G::GpuRepr>,
    g_outer: G::Group,
    filled: usize,
    in_window: usize,
)
    requires
        filled <= in_window,
    ensures
        final(table)@.len() == old(table)@.len() + in_window,
        forall|i: int| 0 <= i < old(table)@.len() ==> final(table)@[i] == old(table)@[i],
        forall|k: int|
            0 <= k < in_window ==> G::represents(
                #[trigger] final(table)@[old(table)@.len() + k],
                if k < filled {
                    crate::group::times::<G::Group>(k as nat, g_outer.point())
                } else {
                    G::Group::identity()
                },
            ),
{
    let ghost start = table@.len() as int;
    let ghost before = table@;
    let mut g_inner = G::Group::zero();
    let mut inner: usize = 0;
    while inner < in_window
        invariant
            inner <= in_window,
            filled <= in_window,
            before == old(table)@,
            start == before.len(),
            table@.len() == start + inner,
            inner <= filled ==> g_inner.point() == crate::group::times::<G::Group>(
                inner as nat,
                g_outer.point(),
            ),
            forall|i: int| 0 <= i < start ==> table@[i] == before[i],
            forall|k: int|
                0 <= k < inner ==> G::represents(
                    #[trigger] table@[start + k],
                    if k < filled {
                        crate::group::times::<G::Group>(k as nat, g_outer.point())
                    } else {
                        G::Group::identity()
                    },
                ),
        decreases in_window - inner,
    {
        if inner < filled {
            // Convert projective to affine, then to the representation on the device
            let affine = G::from_group(&g_inner);
            table.push(affine.to_gpu());
            g_inner = g_inner.added(&g_outer);
        } else {
            table.push(G::default_repr());
        }
        inner = inner + 1;
    }
}

/// Build the table of the multiples of a point.
///
/// The entries of window `outer` are the multiples of `2^(outer * window) * base`. The last window
/// may have fewer bits than the others: the rest of its entries is the point at infinity.
pub fn build_table<G: GpuAffine>(base: &G, t: TableShape) -> (table: Vec<G::GpuRepr>)
    requires
        t.wf(),
    ensures
        is_table::<G>(table@, base.affine_point(), t),
{
    proof {
        t.bounds();
    }
    let ghost w = t.in_window as int;
    let mut table: Vec<G::GpuRepr> = Vec::new();
    // g_outer starts as base, then gets doubled `window` times per outer loop
    let mut g_outer = base.to_group();
    let last_bits: usize = BN254_SCALAR_BITS - (t.num_windows - 1) * t.window;
    let mut outer: usize = 0;
    while outer < t.num_windows
        invariant
            outer <= t.num_windows,
            t.wf(),
            16 <= t.num_windows <= 85,
            8 <= t.in_window <= 0x1_0000,
            t.entries() <= 85 * 0x1_0000,
            BN254_SCALAR_BITS <= t.num_windows * t.window,
            w == t.in_window,
            last_bits == BN254_SCALAR_BITS - (t.num_windows - 1) * t.window,
            table@.len() == outer * w,
            g_outer.point() == crate::group::doubled::<G::Group>(
                base.affine_point(),
                (outer * t.window) as nat,
            ),
            forall|i: int|
                0 <= i < table@.len() ==> G::represents(
                    #[trigger] table@[i],
                    entry::<G::Group>(base.affine_point(), t, i),
                ),
        decreases t.num_windows - outer,
    {
        let last: bool = outer == t.num_windows - 1;
        proof {
            let n = t.num_windows as int;
            let b = t.window as int;
            assert((n - 1) * b + b == n * b) by (nonlinear_arith);
            if last_bits < t.window {
                vstd::arithmetic::power2::lemma_pow2_strictly_increases(
                    last_bits as nat,
                    t.window as nat,
                );
            }
        }
        let filled: usize = if last {
            pow2_usize(last_bits)
        } else {
            t.in_window
        };
        let ghost before = table@;
        push_window::<G>(&mut table, g_outer, filled, t.in_window);
        proof {
            let o = outer as int;
            assert(o * w + w == (o + 1) * w) by (nonlinear_arith);
            assert forall|i: int| 0 <= i < table@.len() implies G::represents(
                #[trigger] table@[i],
                entry::<G::Group>(base.affine_point(), t, i),
            ) by {
                if i < before.len() {
                    assert(table@[i] == before[i]);
                } else {
                    let k = i - before.len();
                    assert(i == o * w + k);
                    vstd::arithmetic::div_mod::lemma_fundamental_div_mod_converse(i, w, o, k);
                    assert(table@[before.len() + k] == table@[i]);
                }
            }
        }
        // Advance g_outer: g_outer *= 2^window (i.e., window doublings)
        let ghost g = g_outer.point();
        let mut k: usize = 0;
        while k < t.window
            invariant
                k <= t.window,
                g_outer.point() == crate::group::doubled::<G::Group>(g, k as nat),
            decreases t.window - k,
        {
            g_outer = g_outer.double();
            k = k + 1;
        }
        proof {
            let o = outer as int;
            let b = t.window as int;
            assert(o * b + b == (o + 1) * b) by (nonlinear_arith);
            assert(o * b >= 0) by (nonlinear_arith)
                requires
                    o >= 0,
                    b >= 0,
            ;
            crate::group::doubled_doubled::<G::Group>(
                base.affine_point(),
                (o * b) as nat,
                b as nat,
            );
        }
        outer = outer + 1;
    }
    table
}

/// The commands of [`FusedPolyCommit::batch_scalar_mul`].
pub open spec fn scalar_mul_plan<F, B>(table: Seq<B>, scalars: Seq<F>, t: TableShape) -> Seq<
    Cmd<F, B>,
> {
    let n = scalars.len();
    seq![
        Cmd::Upload { slot: TABLE, data: DataView::Bases(table) },
        Cmd::Upload { slot: MONT_SCALARS, data: DataView::Scalars(scalars) },
        Cmd::Alloc { slot: STANDARD_SCALARS, elem: Elem::Scalar, len: n },
        crate::fused_commit::to_scalars(MONT_SCALARS, STANDARD_SCALARS, n),
        Cmd::Alloc { slot: MULTIPLES, elem: Elem::Point, len: n },
        Cmd::Launch {
            kernel: KernelId::BatchScalarMul,
            global: crate::sorted_msm::groups(n, FIELD_WORK_SIZE),
            local: FIELD_WORK_SIZE as nat,
            args: seq![
                Arg::Buffer(TABLE),
                Arg::Buffer(STANDARD_SCALARS),
                Arg::Buffer(MULTIPLES),
                Arg::Word(n as u32),
                Arg::Word(t.window as u32),
                Arg::Word(t.num_windows as u32),
                Arg::Word(BN254_SCALAR_BITS as u32),
            ],
        },
        Cmd::Read { slot: MULTIPLES, elem: Elem::Point, len: n },
    ]
}

impl<G: GpuAffine> FusedPolyCommit<G> {
    /// Batch scalar multiplication: computes `scalars[i] * base` for each scalar.
    ///
    /// This is used for GPU-accelerated SRS (trusted setup) generation, where we need
    /// to compute [G, tau*G, tau^2*G, ..., tau^n*G] for the KZG powers.
    ///
    /// Uses a windowed lookup table for efficiency.
    ///
    /// # Arguments
    /// * `base` - The base point
    /// * `scalars` - Scalars to multiply (in Montgomery form, will be converted on GPU)
    ///
    /// The session reads one projective point per scalar; [`FusedPolyCommit::finish_scalar_mul`]
    /// turns them into affine points.
    pub fn batch_scalar_mul<'a>(&self, base: &G, scalars: &'a [G::ScalarField]) -> (r: Either<
        Vec<G>,
        Session<'a, G::ScalarField, G::GpuRepr>,
    >)
        ensures
            scalars@.len() == 0 ==> (r matches Either::Done(d) && d@.len() == 0),
            scalars@.len() > 0 ==> (r matches Either::Run(session) && session.wf() && exists|
                table: Seq<G::GpuRepr>,
            |
                is_table::<G>(table, base.affine_point(), TableShape::of(scalars@.len()))
                    && session@ == #[trigger] scalar_mul_plan::<G::ScalarField, G::GpuRepr>(
                    table,
                    scalars@,
                    TableShape::of(scalars@.len()),
                )),
    {
        if scalars.len() == 0 {
            return Either::Done(Vec::new());
        }
        let n: usize = scalars.len();
        let t = TableShape::new(n);
        let table = build_table(base, t);
        let ghost entries = table@;
        let mut session: Session<'a, G::ScalarField, G::GpuRepr> = Session::new();
        // Upload precomputation table and scalars
        session.create_buffer_from(TABLE, HostData::BaseVec(table));
        session.create_buffer_from(MONT_SCALARS, HostData::Scalars(scalars));
        // Convert Montgomery to standard form on the device
        session.create_buffer(STANDARD_SCALARS, Elem::Scalar, n);
        launch_to_scalars(&mut session, MONT_SCALARS, STANDARD_SCALARS, n);
        session.create_buffer(MULTIPLES, Elem::Point, n);
        session.launch(
            KernelId::BatchScalarMul,
            div_ceil(n, FIELD_WORK_SIZE),
            FIELD_WORK_SIZE,
            vec![
                Arg::Buffer(TABLE),
                Arg::Buffer(STANDARD_SCALARS),
                Arg::Buffer(MULTIPLES),
                Arg::Word(n as u32),
                Arg::Word(t.window as u32),
                Arg::Word(t.num_windows as u32),
                Arg::Word(BN254_SCALAR_BITS as u32),
            ],
        );
        session.read_buffer(MULTIPLES, Elem::Point, n);
        assert(session@ =~~= scalar_mul_plan::<G::ScalarField, G::GpuRepr>(
            entries,
            scalars@,
            TableShape::of(n as nat),
        ));
        Either::Run(session)
    }

    /// The affine points of the results of a batch scalar multiplication.
    pub fn finish_scalar_mul(results: &[G::Group]) -> (r: Vec<G>)
        ensures
            r@.len() == results@.len(),
            forall|i: int|
                0 <= i < r@.len() ==> (#[trigger] r@[i]).affine_point() == results@[i].point(),
    {
        let mut r: Vec<G> = Vec::new();
        let mut i: usize = 0;
        while i < results.len()
            invariant
                i <= results@.len(),
                r@.len() == i,
                forall|j: int|
                    0 <= j < i ==> (#[trigger] r@[j]).affine_point() == results@[j].point(),
            decreases results@.len() - i,
        {
            r.push(G::from_group(&results[i]));
            i = i + 1;
        }
        r
    }
}

/// The entries that a scalar picks from the first `k` windows.
pub open spec fn lookups<G: Group>(base: G::Point, t: TableShape, scalar: nat, k: nat) -> Seq<
    G::Point,
> {
    Seq::new(
        k,
        |outer: int|
            entry::<G>(base, t, outer * t.in_window + t.digit(scalar, outer as nat)),
    )
}

/// The value of a window is one that the table has an entry for.
pub proof fn digit_is_filled(t: TableShape, scalar: nat, outer: nat)
    requires
        t.wf(),
        scalar < vstd::arithmetic::power2::pow2(BN254_SCALAR_BITS as nat),
        outer < t.num_windows,
    ensures
        t.digit(scalar, outer) < t.filled(outer) <= t.in_window,
{
    t.bounds();
    let w = t.window as nat;
    let low = vstd::arithmetic::power2::pow2(outer * w);
    let size = vstd::arithmetic::power2::pow2(w);
    vstd::arithmetic::power2::lemma_pow2_pos(outer * w);
    vstd::arithmetic::power2::lemma_pow2_pos(w);
    vstd::arithmetic::div_mod::lemma_mod_bound((scalar / low) as int, size as int);
    if outer + 1 == t.num_windows {
        let rest = t.bits(outer);
        let n = t.num_windows as int;
        let b = t.window as int;
        assert((n - 1) * b + b == n * b) by (nonlinear_arith);
        assert(outer * w + rest == BN254_SCALAR_BITS);
        let high = vstd::arithmetic::power2::pow2(rest);
        vstd::arithmetic::power2::lemma_pow2_adds(outer * w, rest);
        assert(scalar < low * high);
        let q = (scalar / low) as int;
        vstd::arithmetic::div_mod::lemma_fundamental_div_mod(scalar as int, low as int);
        vstd::arithmetic::div_mod::lemma_mod_bound(scalar as int, low as int);
        let l = low as int;
        let h = high as int;
        let s = scalar as int;
        assert(0 <= q < h) by (nonlinear_arith)
            requires
                l * q <= s,
                s < l * h,
                l > 0,
                s >= 0,
                s < l * q + l,
        ;
        if rest < w {
            vstd::arithmetic::power2::lemma_pow2_strictly_increases(rest, w);
        }
        vstd::arithmetic::div_mod::lemma_small_mod(q as nat, size);
    }
}

/// A multiple of a multiple.
proof fn times_times<G: Group>(c: Set<G::Point>, j: nat, k: nat, p: G::Point)
    requires
        crate::group::abelian::<G>(c),
        c.contains(p),
    ensures
        crate::group::times::<G>(j, crate::group::times::<G>(k, p)) == crate::group::times::<G>(
            j * k,
            p,
        ),
    decreases j,
{
    if j == 0 {
        assert(j * k == 0) by (nonlinear_arith)
            requires
                j == 0,
        ;
    } else {
        let i = (j - 1) as nat;
        times_times::<G>(c, i, k, p);
        crate::group::times_plus::<G>(c, i * k, k, p);
        assert(i * k + k == j * k) by (nonlinear_arith)
            requires
                j == i + 1,
        ;
    }
}

/// The entries that a scalar picks from the first windows add up to the multiple by what these
/// windows are worth.
proof fn lookups_add_up<G: Group>(
    c: Set<G::Point>,
    base: G::Point,
    t: TableShape,
    scalar: nat,
    k: nat,
)
    requires
        crate::group::abelian::<G>(c),
        c.contains(base),
        t.wf(),
        scalar < vstd::arithmetic::power2::pow2(BN254_SCALAR_BITS as nat),
        k <= t.num_windows,
    ensures
        crate::group::sum::<G>(lookups::<G>(base, t, scalar, k)) == crate::group::times::<G>(
            scalar % vstd::arithmetic::power2::pow2(k * t.window as nat),
            base,
        ),
    decreases k,
{
    if k == 0 {
        let w = t.window as nat;
        assert(0 * w == 0) by (nonlinear_arith);
        vstd::arithmetic::power2::lemma2_to64();
        assert(vstd::arithmetic::power2::pow2(k * w) == 1);
        assert(scalar % 1 == 0);
    } else {
        let o = (k - 1) as nat;
        let w = t.window as nat;
        lookups_add_up::<G>(c, base, t, scalar, o);
        t.bounds();
        digit_is_filled(t, scalar, o);
        let picked = lookups::<G>(base, t, scalar, k);
        assert(picked.drop_last() =~= lookups::<G>(base, t, scalar, o));
        let d = t.digit(scalar, o);
        let size = t.in_window as int;
        vstd::arithmetic::div_mod::lemma_fundamental_div_mod_converse(
            o * size + d,
            size,
            o as int,
            d as int,
        );
        assert(picked.last() == entry_of::<G>(base, t, o, d));
        let low = vstd::arithmetic::power2::pow2(o * w);
        crate::group::doubled_is_times::<G>(c, base, o * w);
        times_times::<G>(c, d, low, base);
        crate::group::times_plus::<G>(c, scalar % low, d * low, base);
        vstd::arithmetic::power2::lemma_pow2_pos(o * w);
        vstd::arithmetic::power2::lemma_pow2_pos(w);
        vstd::arithmetic::power2::lemma_pow2_adds(o * w, w);
        assert(o * w + w == k * w) by (nonlinear_arith)
            requires
                k == o + 1,
        ;
        vstd::arithmetic::div_mod::lemma_mod_breakdown(scalar as int, low as int, size);
        assert(low * d == d * low) by (nonlinear_arith);
    }
}

/// Adding up the entries that a scalar picks, one of each window, gives the multiple of the point
/// by the scalar, for every scalar of 254 bits.
pub proof fn table_gives_multiples<G: Group>(
    c: Set<G::Point>,
    base: G::Point,
    t: TableShape,
    scalar: nat,
)
    requires
        crate::group::abelian::<G>(c),
        c.contains(base),
        t.wf(),
        scalar < vstd::arithmetic::power2::pow2(BN254_SCALAR_BITS as nat),
    ensures
        crate::group::sum::<G>(lookups::<G>(base, t, scalar, t.num_windows as nat))
            == crate::group::times::<G>(scalar, base),
{
    t.bounds();
    lookups_add_up::<G>(c, base, t, scalar, t.num_windows as nat);
    let all = (t.num_windows * t.window) as nat;
    if all > BN254_SCALAR_BITS {
        vstd::arithmetic::power2::lemma_pow2_strictly_increases(BN254_SCALAR_BITS as nat, all);
    }
    vstd::arithmetic::div_mod::lemma_small_mod(scalar, vstd::arithmetic::power2::pow2(all));
}

} // verus!
