//! Witness polynomials in three parallel passes.
//!
//! A witness polynomial is cut into chunks. The first pass computes every chunk as if nothing came
//! before it, the second one the carries between the chunks, and the third one puts the carries in.

use vstd::prelude::*;

use crate::arith::div_ceil;
use crate::poly_ops::LOCAL_WORK_SIZE;
use crate::session::{Arg, Cmd, KernelId, Session};

verus! {

/// How many chunks a witness polynomial has at most, roughly.
pub const TARGET_CHUNKS: usize = 4096;

/// How witness polynomials are cut into chunks.
#[derive(Copy, Clone, Debug, PartialEq, Eq, Structural)]
pub struct WitnessShape {
    /// The length of the polynomial.
    pub poly_len: usize,
    /// The number of points, each with a witness polynomial of its own.
    pub num_points: usize,
    /// The length of a chunk.
    pub chunk_size: usize,
    /// The number of chunks of a witness polynomial.
    pub num_chunks: usize,
}

impl WitnessShape {
    /// The length of a witness polynomial.
    pub open spec fn witness_len(&self) -> nat {
        (self.poly_len - 1) as nat
    }

    /// The number of elements of all witness polynomials.
    pub open spec fn total_witnesses(&self) -> nat {
        (self.num_points * (self.poly_len - 1)) as nat
    }

    /// The number of carries: one for each chunk.
    pub open spec fn total_carries(&self) -> nat {
        (self.num_points * self.num_chunks) as nat
    }

    /// The chunks are as long as the witness polynomial asks for, and there are as many of them as
    /// it takes.
    pub open spec fn wf(&self) -> bool {
        &&& self.poly_len >= 2
        &&& self.chunk_size == crate::arith::max_of(
            1,
            (self.poly_len - 1) / (TARGET_CHUNKS as int),
        )
        &&& self.num_chunks == crate::arith::ceil_div(
            self.poly_len - 1,
            self.chunk_size as int,
        )
    }

    /// The shape for a polynomial of `poly_len` elements and `num_points` points.
    pub open spec fn of(poly_len: usize, num_points: usize) -> Self {
        let chunk_size = crate::arith::max_of(1, (poly_len - 1) / (TARGET_CHUNKS as int));
        WitnessShape {
            poly_len,
            num_points,
            chunk_size: chunk_size as usize,
            num_chunks: crate::arith::ceil_div(poly_len - 1, chunk_size) as usize,
        }
    }

    /// The shape for a polynomial of `poly_len` elements and `num_points` points.
    pub fn new(poly_len: usize, num_points: usize) -> (r: Self)
        requires
            poly_len >= 2,
        ensures
            r.wf(),
            r == WitnessShape::of(poly_len, num_points),
            r.poly_len == poly_len,
            r.num_points == num_points,
            1 <= r.num_chunks <= poly_len - 1,
            num_points > 0 ==> r.total_carries() > 0 && r.total_witnesses() > 0,
            r.total_carries() <= r.total_witnesses(),
    {
        let witness_len: usize = poly_len - 1;
        let per_chunk: usize = witness_len / TARGET_CHUNKS;
        let chunk_size: usize = if per_chunk >= 1 {
            per_chunk
        } else {
            1
        };
        let num_chunks: usize = div_ceil(witness_len, chunk_size);
        proof {
            crate::arith::ceil_div_least(witness_len as int, chunk_size as int);
            let m = num_points as int;
            let k = num_chunks as int;
            let w = witness_len as int;
            assert(m * k <= m * w) by (nonlinear_arith)
                requires
                    0 <= m,
                    0 <= k <= w,
            ;
            if m > 0 {
                assert(m * k > 0) by (nonlinear_arith)
                    requires
                        m > 0,
                        k > 0,
                ;
            }
        }
        WitnessShape { poly_len, num_points, chunk_size, num_chunks }
    }
}

/// The chunks cover the witness polynomial, the last one is not empty, and there are never more
/// than twice as many as aimed at.
pub proof fn chunks_cover_witness(s: WitnessShape)
    requires
        s.wf(),
    ensures
        s.num_chunks * s.chunk_size >= s.witness_len(),
        (s.num_chunks - 1) * s.chunk_size < s.witness_len(),
        s.num_chunks <= 2 * TARGET_CHUNKS,
{
    let w = s.poly_len - 1;
    let c = s.chunk_size as int;
    let n = s.num_chunks as int;
    crate::arith::ceil_div_least(w, c);
    if w / 4096 >= 1 {
        assert(w < 4096 * (c + 1));
        assert(n <= 2 * 4096) by (nonlinear_arith)
            requires
                (n - 1) * c < w,
                w < 4096 * (c + 1),
                c >= 1,
        ;
    } else {
        assert(w < 4096);
    }
}

/// One past the last element of chunk `c`.
pub open spec fn chunk_end(s: WitnessShape, c: nat) -> int {
    crate::arith::min_of((c + 1) * s.chunk_size, s.witness_len() as int)
}

/// What the first pass makes of element `j` of chunk `c`: the recurrence from the end of the chunk.
pub open spec fn chunk_value(f: Seq<int>, u: int, s: WitnessShape, c: nat, j: int) -> int {
    crate::reference::eval(f.subrange(j + 1, chunk_end(s, c) + 1), u)
}

/// What the second pass carries into chunk `c` from the chunks above it.
pub open spec fn carry_into_chunk(f: Seq<int>, u: int, s: WitnessShape, c: nat) -> int
    decreases s.num_chunks - c,
{
    if c + 1 >= s.num_chunks {
        0
    } else {
        let start = (c + 1) * s.chunk_size;
        chunk_value(f, u, s, c + 1, start) + vstd::arithmetic::power::pow(
            u,
            (chunk_end(s, c + 1) - start) as nat,
        ) * carry_into_chunk(f, u, s, c + 1)
    }
}

/// What the third pass makes of element `j` of chunk `c`.
pub open spec fn corrected_value(f: Seq<int>, u: int, s: WitnessShape, c: nat, j: int) -> int {
    chunk_value(f, u, s, c, j) + vstd::arithmetic::power::pow(
        u,
        (chunk_end(s, c) - j) as nat,
    ) * carry_into_chunk(f, u, s, c)
}

/// The value of a polynomial, from those of its lower and its upper part.
pub proof fn eval_concat(a: Seq<int>, b: Seq<int>, u: int)
    ensures
        crate::reference::eval(a + b, u) == crate::reference::eval(a, u)
            + vstd::arithmetic::power::pow(u, a.len()) * crate::reference::eval(b, u),
    decreases a.len(),
{
    reveal(vstd::arithmetic::power::pow);
    if a.len() == 0 {
        assert(a + b =~= b);
        let e = crate::reference::eval(b, u);
        assert(1 * e == e);
    } else {
        eval_concat(a.drop_first(), b, u);
        assert((a + b).drop_first() =~= a.drop_first() + b);
        let p = vstd::arithmetic::power::pow(u, (a.len() - 1) as nat);
        let x = crate::reference::eval(a.drop_first(), u);
        let y = crate::reference::eval(b, u);
        assert(u * (x + p * y) == u * x + (u * p) * y) by (nonlinear_arith);
    }
}

/// The value from coefficient `i` on, from those of the coefficients before `k` and from `k` on.
proof fn eval_split(f: Seq<int>, u: int, i: int, k: int)
    requires
        0 <= i <= k <= f.len(),
    ensures
        crate::reference::eval(f.skip(i), u) == crate::reference::eval(f.subrange(i, k), u)
            + vstd::arithmetic::power::pow(u, (k - i) as nat) * crate::reference::eval(
            f.skip(k),
            u,
        ),
{
    eval_concat(f.subrange(i, k), f.skip(k), u);
    assert(f.subrange(i, k) + f.skip(k) =~= f.skip(i));
}

/// Where the chunks start and end.
proof fn chunk_bounds(s: WitnessShape, c: nat)
    requires
        s.wf(),
        c < s.num_chunks,
    ensures
        0 <= c * s.chunk_size < chunk_end(s, c) <= s.witness_len(),
        c + 1 < s.num_chunks ==> chunk_end(s, c) == (c + 1) * s.chunk_size,
        c + 1 == s.num_chunks ==> chunk_end(s, c) == s.witness_len(),
{
    chunks_cover_witness(s);
    let n = s.num_chunks as int;
    let z = s.chunk_size as int;
    let w = s.witness_len() as int;
    let i = c as int;
    assert(0 <= i * z && i * z <= (n - 1) * z && (i + 1) * z == i * z + z) by (nonlinear_arith)
        requires
            0 <= i <= n - 1,
            z >= 1,
    ;
    if i + 1 < n {
        assert((i + 1) * z <= (n - 1) * z) by (nonlinear_arith)
            requires
                i + 1 <= n - 1,
                z >= 1,
        ;
    }
}

/// What is carried into a chunk is the value of all coefficients above it.
proof fn carry_is_rest(f: Seq<int>, u: int, s: WitnessShape, c: nat)
    requires
        s.wf(),
        f.len() == s.poly_len,
        c < s.num_chunks,
    ensures
        carry_into_chunk(f, u, s, c) == crate::reference::eval(f.skip(chunk_end(s, c) + 1), u),
    decreases s.num_chunks - c,
{
    chunk_bounds(s, c);
    if c + 1 >= s.num_chunks {
        assert(f.skip(chunk_end(s, c) + 1) =~= Seq::empty());
    } else {
        chunk_bounds(s, c + 1);
        carry_is_rest(f, u, s, c + 1);
        let start = (c + 1) * s.chunk_size;
        eval_split(f, u, start + 1, chunk_end(s, c + 1) + 1);
    }
}

/// The three passes together give the witness polynomial, however it is cut into chunks: after the
/// third pass, element `j` of the chunk that it is in is coefficient `j` of the quotient of the
/// polynomial by `x - u`.
pub proof fn passes_give_witness(f: Seq<int>, u: int, s: WitnessShape, c: nat, j: int)
    requires
        s.wf(),
        f.len() == s.poly_len,
        c < s.num_chunks,
        c * s.chunk_size <= j < chunk_end(s, c),
    ensures
        corrected_value(f, u, s, c, j) == crate::reference::quotient(f, u)[j],
{
    chunk_bounds(s, c);
    carry_is_rest(f, u, s, c);
    eval_split(f, u, j + 1, chunk_end(s, c) + 1);
}

/// The slots that the passes work on.
#[derive(Copy, Clone, Debug, PartialEq, Eq, Structural)]
pub struct WitnessSlots {
    /// The polynomial.
    pub poly: usize,
    /// The witness polynomials.
    pub witnesses: usize,
    /// The carries out of the chunks.
    pub carries: usize,
    /// The carries into the chunks.
    pub propagated: usize,
    /// The points.
    pub points: usize,
}

/// The number of thread groups for `n` items.
pub open spec fn groups(n: nat) -> nat {
    crate::sorted_msm::groups(n, LOCAL_WORK_SIZE)
}

/// The first pass.
pub open spec fn phase1<F, B>(t: WitnessSlots, s: WitnessShape) -> Cmd<F, B> {
    Cmd::Launch {
        kernel: KernelId::WitnessPolyBatchPhase1,
        global: groups(s.total_carries()),
        local: LOCAL_WORK_SIZE as nat,
        args: seq![
            Arg::Buffer(t.poly),
            Arg::Buffer(t.witnesses),
            Arg::Buffer(t.carries),
            Arg::Buffer(t.points),
            Arg::Word(s.poly_len as u32),
            Arg::Word(s.num_points as u32),
            Arg::Word(s.chunk_size as u32),
            Arg::Word(s.num_chunks as u32),
        ],
    }
}

/// The second pass.
pub open spec fn phase2<F, B>(t: WitnessSlots, s: WitnessShape) -> Cmd<F, B> {
    Cmd::Launch {
        kernel: KernelId::WitnessCarryPropagate,
        global: groups(s.num_points as nat),
        local: LOCAL_WORK_SIZE as nat,
        args: seq![
            Arg::Buffer(t.carries),
            Arg::Buffer(t.propagated),
            Arg::Buffer(t.points),
            Arg::Word(s.num_chunks as u32),
            Arg::Word(s.num_points as u32),
            Arg::Word(s.chunk_size as u32),
            Arg::Word(s.poly_len as u32),
        ],
    }
}

/// The third pass.
pub open spec fn phase3<F, B>(t: WitnessSlots, s: WitnessShape) -> Cmd<F, B> {
    Cmd::Launch {
        kernel: KernelId::WitnessPolyBatchPhase3,
        global: groups(s.total_carries()),
        local: LOCAL_WORK_SIZE as nat,
        args: seq![
            Arg::Buffer(t.witnesses),
            Arg::Buffer(t.propagated),
            Arg::Buffer(t.points),
            Arg::Word(s.poly_len as u32),
            Arg::Word(s.num_points as u32),
            Arg::Word(s.chunk_size as u32),
            Arg::Word(s.num_chunks as u32),
        ],
    }
}

pub(crate) fn launch_phase1<'a, F, B>(
    session: &mut Session<'a, F, B>,
    t: WitnessSlots,
    s: WitnessShape,
)
    requires
        old(session).wf(),
        s.total_carries() <= usize::MAX,
        old(session).buffers().contains_key(t.poly),
        old(session).buffers().contains_key(t.witnesses),
        old(session).buffers().contains_key(t.carries),
        old(session).buffers().contains_key(t.points),
    ensures
        final(session).wf(),
        final(session)@ == old(session)@.push(phase1::<F, B>(t, s)),
        final(session).buffers() == old(session).buffers(),
{
    session.launch(
        KernelId::WitnessPolyBatchPhase1,
        div_ceil(s.num_points * s.num_chunks, LOCAL_WORK_SIZE),
        LOCAL_WORK_SIZE,
        vec![
            Arg::Buffer(t.poly),
            Arg::Buffer(t.witnesses),
            Arg::Buffer(t.carries),
            Arg::Buffer(t.points),
            Arg::Word(s.poly_len as u32),
            Arg::Word(s.num_points as u32),
            Arg::Word(s.chunk_size as u32),
            Arg::Word(s.num_chunks as u32),
        ],
    );
    assert(session@.last() =~~= phase1::<F, B>(t, s));
}

pub(crate) fn launch_phase2<'a, F, B>(
    session: &mut Session<'a, F, B>,
    t: WitnessSlots,
    s: WitnessShape,
)
    requires
        old(session).wf(),
        old(session).buffers().contains_key(t.carries),
        old(session).buffers().contains_key(t.propagated),
        old(session).buffers().contains_key(t.points),
    ensures
        final(session).wf(),
        final(session)@ == old(session)@.push(phase2::<F, B>(t, s)),
        final(session).buffers() == old(session).buffers(),
{
    session.launch(
        KernelId::WitnessCarryPropagate,
        div_ceil(s.num_points, LOCAL_WORK_SIZE),
        LOCAL_WORK_SIZE,
        vec![
            Arg::Buffer(t.carries),
            Arg::Buffer(t.propagated),
            Arg::Buffer(t.points),
            Arg::Word(s.num_chunks as u32),
            Arg::Word(s.num_points as u32),
            Arg::Word(s.chunk_size as u32),
            Arg::Word(s.poly_len as u32),
        ],
    );
    assert(session@.last() =~~= phase2::<F, B>(t, s));
}

pub(crate) fn launch_phase3<'a, F, B>(
    session: &mut Session<'a, F, B>,
    t: WitnessSlots,
    s: WitnessShape,
)
    requires
        old(session).wf(),
        s.total_carries() <= usize::MAX,
        old(session).buffers().contains_key(t.witnesses),
        old(session).buffers().contains_key(t.propagated),
        old(session).buffers().contains_key(t.points),
    ensures
        final(session).wf(),
        final(session)@ == old(session)@.push(phase3::<F, B>(t, s)),
        final(session).buffers() == old(session).buffers(),
{
    session.launch(
        KernelId::WitnessPolyBatchPhase3,
        div_ceil(s.num_points * s.num_chunks, LOCAL_WORK_SIZE),
        LOCAL_WORK_SIZE,
        vec![
            Arg::Buffer(t.witnesses),
            Arg::Buffer(t.propagated),
            Arg::Buffer(t.points),
            Arg::Word(s.poly_len as u32),
            Arg::Word(s.num_points as u32),
            Arg::Word(s.chunk_size as u32),
            Arg::Word(s.num_chunks as u32),
        ],
    );
    assert(session@.last() =~~= phase3::<F, B>(t, s));
}

} // verus!
