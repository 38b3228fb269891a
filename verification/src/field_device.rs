//! A device on which the kernels for field elements do what they are for.
//!
//! It says what a session computes with field elements, from the commands of the session alone:
//! which buffers hold what, and what is handed to the host. Kernels that do not write field elements
//! leave these buffers alone.

use vstd::prelude::*;

use crate::field::PrimeField;
use crate::session::{Arg, Cmd, DataView, Elem, KernelId};
use crate::witness::WitnessShape;

verus! {

/// The field elements on a device, as residues.
pub struct FieldDevice {
    /// The contents of the buffers that hold field elements, by slot.
    pub slots: Map<usize, Seq<int>>,
    /// What has been handed to the host.
    pub outputs: Seq<Seq<int>>,
}

/// The slot of a buffer argument.
pub open spec fn slot_arg(args: Seq<Arg>, i: int) -> usize {
    match args[i] {
        Arg::Buffer(slot) => slot,
        _ => 0,
    }
}

/// A number argument.
pub open spec fn word_arg(args: Seq<Arg>, i: int) -> nat {
    match args[i] {
        Arg::Word(w) => w as nat,
        _ => 0,
    }
}

/// Contents that nothing is known about.
pub open spec fn unknown(len: nat) -> Seq<int> {
    Seq::new(len, |i: int| arbitrary::<int>())
}

/// A buffer whose beginning has been overwritten.
pub open spec fn overwritten(old: Seq<int>, new: Seq<int>) -> Seq<int> {
    new + old.skip(new.len() as int)
}

/// The buffers after a kernel wrote the beginning of one of them. If there are not enough threads, or
/// if the buffer is too short, nothing is known of the contents.
pub open spec fn written(
    slots: Map<usize, Seq<int>>,
    slot: usize,
    new: Seq<int>,
    enough: bool,
) -> Map<usize, Seq<int>> {
    slots.insert(
        slot,
        if enough && new.len() <= slots[slot].len() {
            overwritten(slots[slot], new)
        } else {
            unknown(slots[slot].len())
        },
    )
}

/// A polynomial of `n` elements, from one of `2 * n` elements whose lowest variable is fixed to `r`.
pub open spec fn fixed(poly: Seq<int>, r: int, n: nat, q: int) -> Seq<int> {
    Seq::new(n, |j: int| crate::reference::interpolate(r, poly[2 * j], poly[2 * j + 1], q))
}

/// The witness polynomial of a polynomial for the point `u`.
pub open spec fn witness(f: Seq<int>, u: int, q: int) -> Seq<int> {
    crate::reference::residues(crate::reference::quotient(f, u), q)
}

/// Rows of `width` elements, back to back.
pub open spec fn flat(row: spec_fn(int) -> Seq<int>, rows: nat, width: nat) -> Seq<int> {
    Seq::new(rows * width, |i: int| row(i / (width as int))[i % (width as int)])
}

/// Row `p` of rows of `width` elements that lie back to back.
pub open spec fn row_of(s: Seq<int>, p: int, width: nat) -> Seq<int> {
    s.subrange(p * width, (p + 1) * width)
}

/// The chunk that element `j` of a witness polynomial is in.
pub open spec fn chunk_of(s: WitnessShape, j: int) -> nat {
    (j / (s.chunk_size as int)) as nat
}

/// What the first pass makes of the elements of a witness polynomial.
pub open spec fn first_pass(f: Seq<int>, u: int, s: WitnessShape, q: int) -> Seq<int> {
    Seq::new(
        s.witness_len(),
        |j: int| crate::witness::chunk_value(f, u, s, chunk_of(s, j), j) % q,
    )
}

/// What the first pass carries out of the chunks.
pub open spec fn first_carries(f: Seq<int>, u: int, s: WitnessShape, q: int) -> Seq<int> {
    Seq::new(
        s.num_chunks as nat,
        |c: int| crate::witness::chunk_value(f, u, s, c as nat, c * s.chunk_size) % q,
    )
}

/// What the second pass carries into chunk `c`, from what the first one carried out of the chunks.
pub open spec fn carried(carries: Seq<int>, u: int, s: WitnessShape, c: nat) -> int
    decreases s.num_chunks - c,
{
    if c + 1 >= s.num_chunks {
        0
    } else {
        carries[c as int + 1] + vstd::arithmetic::power::pow(
            u,
            (crate::witness::chunk_end(s, c + 1) - (c + 1) * s.chunk_size) as nat,
        ) * carried(carries, u, s, c + 1)
    }
}

/// What the second pass carries into the chunks.
pub open spec fn second_carries(carries: Seq<int>, u: int, s: WitnessShape, q: int) -> Seq<int> {
    Seq::new(s.num_chunks as nat, |c: int| carried(carries, u, s, c as nat) % q)
}

/// What the third pass makes of the elements of a witness polynomial.
pub open spec fn third_pass(
    values: Seq<int>,
    carries: Seq<int>,
    u: int,
    s: WitnessShape,
    q: int,
) -> Seq<int> {
    Seq::new(
        s.witness_len(),
        |j: int|
            {
                let c = chunk_of(s, j);
                (values[j] + vstd::arithmetic::power::pow(
                    u,
                    (crate::witness::chunk_end(s, c) - j) as nat,
                ) * carries[c as int]) % q
            },
    )
}

/// The shape that the arguments of a pass describe.
pub open spec fn shape_arg(
    args: Seq<Arg>,
    poly_len: int,
    num_points: int,
    chunk_size: int,
    num_chunks: int,
) -> WitnessShape {
    WitnessShape {
        poly_len: word_arg(args, poly_len) as usize,
        num_points: word_arg(args, num_points) as usize,
        chunk_size: word_arg(args, chunk_size) as usize,
        num_chunks: word_arg(args, num_chunks) as usize,
    }
}

/// The contents of the buffers after a kernel with `threads` threads.
pub open spec fn launched(
    slots: Map<usize, Seq<int>>,
    kernel: KernelId,
    threads: nat,
    args: Seq<Arg>,
    q: int,
) -> Map<usize, Seq<int>> {
    match kernel {
        KernelId::FixVar => {
            let n = word_arg(args, 3);
            let new = fixed(slots[slot_arg(args, 0)], slots[slot_arg(args, 2)][0], n, q);
            written(slots, slot_arg(args, 1), new, threads >= n)
        },
        KernelId::FixVarIndexed => {
            let n = word_arg(args, 3);
            let r = slots[slot_arg(args, 2)][word_arg(args, 4) as int];
            let new = fixed(slots[slot_arg(args, 0)], r, n, q);
            written(slots, slot_arg(args, 1), new, threads >= n)
        },
        KernelId::WitnessPolySequential => {
            let f = slots[slot_arg(args, 0)].take(word_arg(args, 3) as int);
            let new = witness(f, slots[slot_arg(args, 2)][0], q);
            written(slots, slot_arg(args, 1), new, threads >= 1)
        },
        KernelId::WitnessPolyBatch => {
            let n = word_arg(args, 3);
            let f = slots[slot_arg(args, 0)].take(n as int);
            let points = slots[slot_arg(args, 1)];
            let new = flat(
                |p: int| witness(f, points[p], q),
                word_arg(args, 4),
                (n - 1) as nat,
            );
            written(slots, slot_arg(args, 2), new, threads >= word_arg(args, 4))
        },
        KernelId::WitnessPolyBatchPhase1 => {
            let s = shape_arg(args, 4, 5, 6, 7);
            let f = slots[slot_arg(args, 0)].take(s.poly_len as int);
            let points = slots[slot_arg(args, 3)];
            let values = flat(
                |p: int| first_pass(f, points[p], s, q),
                s.num_points as nat,
                s.witness_len(),
            );
            let carries = flat(
                |p: int| first_carries(f, points[p], s, q),
                s.num_points as nat,
                s.num_chunks as nat,
            );
            let enough = threads >= s.total_carries();
            written(
                written(slots, slot_arg(args, 1), values, enough),
                slot_arg(args, 2),
                carries,
                enough,
            )
        },
        KernelId::WitnessCarryPropagate => {
            let s = shape_arg(args, 6, 4, 5, 3);
            let carries = slots[slot_arg(args, 0)];
            let points = slots[slot_arg(args, 2)];
            let k = s.num_chunks as nat;
            let new = flat(
                |p: int| second_carries(row_of(carries, p, k), points[p], s, q),
                s.num_points as nat,
                k,
            );
            written(slots, slot_arg(args, 1), new, threads >= s.num_points)
        },
        KernelId::WitnessPolyBatchPhase3 => {
            let s = shape_arg(args, 3, 4, 5, 6);
            let values = slots[slot_arg(args, 0)];
            let carries = slots[slot_arg(args, 1)];
            let points = slots[slot_arg(args, 2)];
            let new = flat(
                |p: int|
                    third_pass(
                        row_of(values, p, s.witness_len()),
                        row_of(carries, p, s.num_chunks as nat),
                        points[p],
                        s,
                        q,
                    ),
                s.num_points as nat,
                s.witness_len(),
            );
            written(slots, slot_arg(args, 0), new, threads >= s.total_carries())
        },
        KernelId::ToScalarBytes => {
            let n = word_arg(args, 2);
            let new = slots[slot_arg(args, 0)].take(n as int);
            written(slots, slot_arg(args, 1), new, threads >= n)
        },
        KernelId::ToScalarBytesOffset => {
            let n = word_arg(args, 2);
            let from = word_arg(args, 3) as int;
            let new = slots[slot_arg(args, 0)].subrange(from, from + n);
            written(slots, slot_arg(args, 1), new, threads >= n)
        },
        KernelId::FixVarToScalar => {
            let n = word_arg(args, 3);
            let new = fixed(slots[slot_arg(args, 0)], slots[slot_arg(args, 2)][0], n, q);
            written(slots, slot_arg(args, 1), new, threads >= n)
        },
        KernelId::ScalePoly => {
            let n = word_arg(args, 3);
            let poly = slots[slot_arg(args, 0)];
            let c = slots[slot_arg(args, 2)][0];
            let new = Seq::new(n, |j: int| (poly[j] * c) % q);
            written(slots, slot_arg(args, 1), new, threads >= n)
        },
        KernelId::AddPoly => {
            let n = word_arg(args, 3);
            let a = slots[slot_arg(args, 0)];
            let b = slots[slot_arg(args, 1)];
            let new = Seq::new(n, |j: int| (a[j] + b[j]) % q);
            written(slots, slot_arg(args, 2), new, threads >= n)
        },
        KernelId::SubPoly => {
            let n = word_arg(args, 3);
            let a = slots[slot_arg(args, 0)];
            let b = slots[slot_arg(args, 1)];
            let new = Seq::new(n, |j: int| (a[j] - b[j]) % q);
            written(slots, slot_arg(args, 2), new, threads >= n)
        },
        KernelId::LinearCombine => {
            let k = word_arg(args, 3);
            let n = word_arg(args, 4);
            let all = slots[slot_arg(args, 0)];
            let coeffs = slots[slot_arg(args, 1)];
            let polys = Seq::new(k, |i: int| row_of(all, i, n));
            let new = Seq::new(
                n,
                |j: int| crate::reference::combination(polys, coeffs, j, k) % q,
            );
            written(slots, slot_arg(args, 2), new, threads >= n)
        },
        KernelId::LinearCombineAccumulate => {
            let n = word_arg(args, 3);
            let more = slots[slot_arg(args, 0)];
            let sum = slots[slot_arg(args, 1)];
            let c = slots[slot_arg(args, 2)][0];
            let new = Seq::new(n, |j: int| (sum[j] + more[j] * c) % q);
            let m = word_arg(args, 4);
            written(slots, slot_arg(args, 1), new, threads >= m && n <= m)
        },
        KernelId::EvalUnivariateBatch => {
            let k = word_arg(args, 3);
            let n = word_arg(args, 4);
            let m = word_arg(args, 5);
            let all = slots[slot_arg(args, 0)];
            let points = slots[slot_arg(args, 1)];
            let new = flat(
                |p: int|
                    Seq::new(
                        k,
                        |i: int| crate::reference::eval(row_of(all, i, n), points[p]) % q,
                    ),
                m,
                k,
            );
            written(slots, slot_arg(args, 2), new, threads >= k * m)
        },
        _ => slots,
    }
}

/// The numbers that little-endian bytes stand for.
pub open spec fn numbers(s: Seq<Seq<u8>>) -> Seq<int> {
    s.map_values(|b: Seq<u8>| crate::limbs::bytes_value(b) as int)
}

/// The device after a command. A buffer of bytes has room for numbers of 32 bytes each.
pub open spec fn step<F: PrimeField, B>(d: FieldDevice, c: Cmd<F, B>) -> FieldDevice {
    match c {
        Cmd::Alloc { slot, elem, len } => FieldDevice {
            slots: d.slots.insert(
                slot,
                unknown(
                    if elem == Elem::Byte {
                        len / 32
                    } else {
                        len
                    },
                ),
            ),
            ..d
        },
        Cmd::Upload { slot, data } => FieldDevice {
            slots: match data {
                DataView::Scalars(s) => d.slots.insert(slot, crate::reference::values(s)),
                DataView::Exponents(s) => d.slots.insert(slot, numbers(s)),
                _ => d.slots.insert(slot, unknown(data.len())),
            },
            ..d
        },
        Cmd::Write { slot, data } => match data {
            DataView::Scalars(s) => FieldDevice {
                slots: d.slots.insert(
                    slot,
                    overwritten(d.slots[slot], crate::reference::values(s)),
                ),
                ..d
            },
            _ => d,
        },
        Cmd::Launch { kernel, global, local, args } => FieldDevice {
            slots: launched(d.slots, kernel, global * local, args, F::order() as int),
            ..d
        },
        Cmd::Read { slot, elem, len } => if elem == Elem::Scalar {
            FieldDevice { outputs: d.outputs.push(d.slots[slot].take(len as int)), ..d }
        } else {
            d
        },
        Cmd::Free { slot } => FieldDevice { slots: d.slots.remove(slot), ..d },
    }
}

/// The device after a list of commands.
pub open spec fn run<F: PrimeField, B>(d: FieldDevice, log: Seq<Cmd<F, B>>) -> FieldDevice
    decreases log.len(),
{
    if log.len() == 0 {
        d
    } else {
        step(run(d, log.drop_last()), log.last())
    }
}

/// A device without any buffers.
pub open spec fn idle() -> FieldDevice {
    FieldDevice { slots: Map::empty(), outputs: Seq::empty() }
}

/// What a session hands to the host of field elements.
pub open spec fn outputs<F: PrimeField, B>(log: Seq<Cmd<F, B>>) -> Seq<Seq<int>> {
    run(idle(), log).outputs
}

/// One command more.
pub proof fn run_push<F: PrimeField, B>(d: FieldDevice, log: Seq<Cmd<F, B>>, c: Cmd<F, B>)
    ensures
        run(d, log.push(c)) == step(run(d, log), c),
{
    assert(log.push(c).drop_last() =~= log);
}

/// Commands can be run in two goes.
pub proof fn run_concat<F: PrimeField, B>(d: FieldDevice, a: Seq<Cmd<F, B>>, b: Seq<Cmd<F, B>>)
    ensures
        run(d, a + b) == run(run(d, a), b),
    decreases b.len(),
{
    if b.len() == 0 {
        assert(a + b =~= a);
    } else {
        run_concat(d, a, b.drop_last());
        assert((a + b).drop_last() =~= a + b.drop_last());
    }
}

/// Row `p` of rows that lie back to back.
pub proof fn flat_row(row: spec_fn(int) -> Seq<int>, rows: nat, width: nat, p: int)
    requires
        0 <= p < rows,
        row(p).len() == width,
    ensures
        flat(row, rows, width).len() == rows * width,
        (p + 1) * width <= rows * width,
        0 <= p * width,
        row_of(flat(row, rows, width), p, width) == row(p),
{
    let w = width as int;
    let n = rows as int;
    assert(0 <= p * w && (p + 1) * w <= n * w && (p + 1) * w == p * w + w) by (nonlinear_arith)
        requires
            0 <= p < n,
            w >= 0,
    ;
    let f = flat(row, rows, width);
    let r = row_of(f, p, width);
    assert forall|j: int| 0 <= j < w implies #[trigger] r[j] == row(p)[j] by {
        vstd::arithmetic::div_mod::lemma_fundamental_div_mod_converse(p * w + j, w, p, j);
        assert(w * p == p * w) by (nonlinear_arith);
    }
    assert(r =~= row(p));
}

/// As many threads as the thread groups have are enough for as many items as they were made for.
pub proof fn groups_suffice(n: nat, local: usize)
    requires
        local > 0,
    ensures
        crate::sorted_msm::groups(n, local) * local >= n,
{
    crate::arith::ceil_div_least(n as int, local as int);
}

/// The polynomial after the first `k` challenges have been put in for its lowest variables.
pub open spec fn fixed_in_turn(poly: Seq<int>, challenges: Seq<int>, k: nat, q: int) -> Seq<int>
    decreases k,
{
    if k == 0 {
        poly
    } else {
        let before = fixed_in_turn(poly, challenges, (k - 1) as nat, q);
        fixed(before, challenges[k - 1], before.len() / 2, q)
    }
}

/// Each fixed variable halves the length.
pub proof fn fixed_in_turn_len(poly: Seq<int>, challenges: Seq<int>, k: nat, q: int)
    ensures
        fixed_in_turn(poly, challenges, k, q).len() == crate::poly_ops::halved(poly.len(), k),
    decreases k,
{
    if k > 0 {
        fixed_in_turn_len(poly, challenges, (k - 1) as nat, q);
    }
}

/// What the session that fixes one variable hands out.
pub proof fn fix_var_outputs<F: PrimeField>(poly: Seq<F>, r: F)
    requires
        poly.len() / 2 <= u32::MAX,
    ensures
        outputs(
            crate::poly_ops::fix_var_plan(
                KernelId::FixVar,
                poly,
                r,
                Elem::Scalar,
                poly.len() / 2,
            ),
        ) == seq![
            fixed(
                crate::reference::values(poly),
                r.value() as int,
                poly.len() / 2,
                F::order() as int,
            ),
        ],
{
    let n = poly.len() / 2;
    let plan = crate::poly_ops::fix_var_plan(KernelId::FixVar, poly, r, Elem::Scalar, n);
    let d0 = idle();
    let d1 = step(d0, plan[0]);
    let d2 = step(d1, plan[1]);
    let d3 = step(d2, plan[2]);
    let d4 = step(d3, plan[3]);
    let d5 = step(d4, plan[4]);
    run_five(d0, plan);
    groups_suffice(n, crate::poly_ops::LOCAL_WORK_SIZE);
    let new = fixed(crate::reference::values(poly), r.value() as int, n, F::order() as int);
    assert(d3.slots[0] == crate::reference::values(poly));
    assert(d3.slots[1] == crate::reference::values(seq![r]));
    assert(d3.slots[2] == unknown(n));
    assert(d3.slots[1][0] == r.value());
    assert(d4.slots[2] == overwritten(unknown(n), new));
    assert(d4.slots[2].take(n as int) =~= new);
    assert(d5.outputs =~= seq![new]);
}

/// Five commands, one after the other.
pub proof fn run_five<F: PrimeField, B>(d: FieldDevice, log: Seq<Cmd<F, B>>)
    requires
        log.len() == 5,
    ensures
        run(d, log) == step(
            step(step(step(step(d, log[0]), log[1]), log[2]), log[3]),
            log[4],
        ),
{
    run_four(d, log.drop_last());
}

/// Two commands, one after the other.
pub proof fn run_two<F: PrimeField, B>(d: FieldDevice, log: Seq<Cmd<F, B>>)
    requires
        log.len() == 2,
    ensures
        run(d, log) == step(step(d, log[0]), log[1]),
{
    reveal_with_fuel(run, 3);
}

/// Three commands, one after the other.
pub proof fn run_three<F: PrimeField, B>(d: FieldDevice, log: Seq<Cmd<F, B>>)
    requires
        log.len() == 3,
    ensures
        run(d, log) == step(step(step(d, log[0]), log[1]), log[2]),
{
    reveal_with_fuel(run, 4);
}

/// Four commands, one after the other.
pub proof fn run_four<F: PrimeField, B>(d: FieldDevice, log: Seq<Cmd<F, B>>)
    requires
        log.len() == 4,
    ensures
        run(d, log) == step(step(step(step(d, log[0]), log[1]), log[2]), log[3]),
{
    reveal_with_fuel(run, 5);
}

/// Fixing variables one after the other leaves the last polynomial on the device, and hands out all
/// of them.
proof fn fix_first_runs<F: PrimeField, B>(
    d: FieldDevice,
    poly: Seq<int>,
    challenges: Seq<int>,
    k: nat,
)
    requires
        d.slots[0] == poly,
        d.slots[1] == challenges,
        k <= challenges.len(),
        k <= 64,
        poly.len() / 2 <= u32::MAX,
    ensures
        ({
            let q = F::order() as int;
            let e = run(d, crate::poly_ops::fix_first_plan::<F, B>(poly.len(), k));
            &&& e.slots[crate::poly_ops::fixed_slot(k)] == fixed_in_turn(poly, challenges, k, q)
            &&& e.slots[1] == challenges
            &&& e.outputs == d.outputs + Seq::new(
                k,
                |i: int| fixed_in_turn(poly, challenges, (i + 1) as nat, q),
            )
        }),
    decreases k,
{
    let q = F::order() as int;
    let plan = crate::poly_ops::fix_first_plan::<F, B>(poly.len(), k);
    if k == 0 {
        assert(run(d, plan) == d);
        assert(d.outputs + Seq::new(
            k,
            |i: int| fixed_in_turn(poly, challenges, (i + 1) as nat, q),
        ) =~= d.outputs);
    } else {
        let i = (k - 1) as nat;
        let n = crate::poly_ops::halved(poly.len(), k);
        fix_first_runs::<F, B>(d, poly, challenges, i);
        fixed_in_turn_len(poly, challenges, i, q);
        halved_at_most(poly.len(), k);
        let before = crate::poly_ops::fix_first_plan::<F, B>(poly.len(), i);
        let next = crate::poly_ops::fix_next_plan::<F, B>(i, n);
        run_concat(d, before, next);
        let e0 = run(d, before);
        let e1 = step(e0, next[0]);
        let e2 = step(e1, next[1]);
        let e3 = step(e2, next[2]);
        let e4 = step(e3, next[3]);
        run_four(e0, next);
        groups_suffice(n, crate::poly_ops::LOCAL_WORK_SIZE);
        let from = crate::poly_ops::fixed_slot(i);
        let to = crate::poly_ops::fixed_slot(k);
        let old = fixed_in_turn(poly, challenges, i, q);
        let new = fixed_in_turn(poly, challenges, k, q);
        assert(from != to && from != 1 && to != 1);
        assert(e1.slots[from] == old && e1.slots[1] == challenges && e1.slots[to] == unknown(n));
        assert(e2.slots[to] == overwritten(unknown(n), fixed(old, challenges[k - 1], n, q)));
        assert(e2.slots[to] =~= new);
        assert(e2.slots[to].take(n as int) =~= new);
        assert(e4.outputs =~= d.outputs + Seq::new(
            k,
            |j: int| fixed_in_turn(poly, challenges, (j + 1) as nat, q),
        ));
    }
}

/// Halving at least once leaves at most half.
pub proof fn halved_at_most(n: nat, k: nat)
    requires
        k >= 1,
    ensures
        crate::poly_ops::halved(n, k) <= n / 2,
    decreases k,
{
    if k > 1 {
        halved_at_most(n, (k - 1) as nat);
    } else {
        reveal_with_fuel(crate::poly_ops::halved, 2);
    }
}

/// What the session that fixes several variables hands out.
pub proof fn fix_vars_outputs<F: PrimeField>(poly: Seq<F>, challenges: Seq<F>)
    requires
        challenges.len() > 0,
        challenges.len() <= crate::arith::log2(poly.len()),
        poly.len() <= usize::MAX,
        poly.len() / 2 <= u32::MAX,
    ensures
        outputs(crate::poly_ops::fix_vars_plan(poly, challenges)) == Seq::new(
            challenges.len(),
            |j: int|
                fixed_in_turn(
                    crate::reference::values(poly),
                    crate::reference::values(challenges),
                    (j + 1) as nat,
                    F::order() as int,
                ),
        ),
{
    let q = F::order() as int;
    let pv = crate::reference::values(poly);
    let cv = crate::reference::values(challenges);
    let k = challenges.len();
    let head: Seq<Cmd<F, ()>> = seq![
        Cmd::Upload { slot: 0, data: DataView::Scalars(poly) },
        Cmd::Upload { slot: 1, data: DataView::Scalars(challenges) },
    ];
    crate::fused_commit::log_is_small(poly.len() as usize);
    let d = run(idle(), head);
    run_two(idle(), head);
    assert(d.slots[0] == pv && d.slots[1] == cv);
    run_concat(idle(), head, crate::poly_ops::fix_first_plan::<F, ()>(poly.len(), k));
    fix_first_runs::<F, ()>(d, pv, cv, k);
    assert(outputs(crate::poly_ops::fix_vars_plan(poly, challenges)) =~= Seq::new(
        k,
        |j: int| fixed_in_turn(pv, cv, (j + 1) as nat, q),
    ));
}

/// Fixing several variables in one session hands out one polynomial for each challenge. The first
/// one is what fixing the lowest variable of the polynomial gives, and each other one is what fixing
/// the lowest variable of the one before it gives. Each is half as long as the one before it, and
/// the polynomial itself is not among them.
///
/// The lengths that kernels are told are 32 bit words, so that the law needs lengths that fit.
pub proof fn fixing_goes_step_by_step<F: PrimeField>(
    poly: Seq<F>,
    challenges: Seq<F>,
    i: nat,
    previous: Seq<F>,
)
    requires
        vstd::arithmetic::power2::is_pow2(poly.len() as int),
        challenges.len() <= crate::arith::log2(poly.len()),
        poly.len() <= usize::MAX,
        poly.len() / 2 <= u32::MAX,
        i < challenges.len(),
        i == 0 ==> previous == poly,
        i > 0 ==> crate::reference::values(previous) == outputs(
            crate::poly_ops::fix_vars_plan(poly, challenges),
        )[i - 1],
    ensures
        ({
            let v = outputs(crate::poly_ops::fix_vars_plan(poly, challenges));
            &&& v.len() == challenges.len()
            &&& v[i as int].len() == crate::poly_ops::halved(poly.len(), i + 1)
            &&& outputs(
                crate::poly_ops::fix_var_plan(
                    KernelId::FixVar,
                    previous,
                    challenges[i as int],
                    Elem::Scalar,
                    previous.len() / 2,
                ),
            ) == seq![v[i as int]]
        }),
{
    let q = F::order() as int;
    let pv = crate::reference::values(poly);
    let cv = crate::reference::values(challenges);
    fix_vars_outputs(poly, challenges);
    fixed_in_turn_len(pv, cv, i + 1, q);
    fixed_in_turn_len(pv, cv, i, q);
    let pr = crate::reference::values(previous);
    assert(pr == fixed_in_turn(pv, cv, i, q));
    assert(pr.len() == previous.len());
    if i > 0 {
        halved_at_most(poly.len(), i);
    }
    fix_var_outputs(previous, challenges[i as int]);
}

/// Without challenges nothing is handed out.
pub proof fn nothing_to_fix<F: PrimeField>(poly: Seq<F>)
    ensures
        outputs(crate::poly_ops::fix_vars_plan(poly, Seq::<F>::empty())).len() == 0,
{
}

/// The witness polynomials for several points are those for the points one by one: row `p` of what
/// the one session hands out is what the session for point `p` alone hands out, which is the quotient
/// of the polynomial by `x - u`. No point has any influence on the witness polynomial of another, and
/// equal points have equal ones.
///
/// The lengths that kernels are told are 32 bit words, so that the law needs lengths that fit.
pub proof fn witnesses_are_one_by_one<F: PrimeField>(f: Seq<F>, points: Seq<F>, p: int)
    requires
        f.len() >= 2,
        f.len() <= u32::MAX,
        points.len() <= u32::MAX,
        0 <= p < points.len(),
    ensures
        ({
            let all = outputs(crate::poly_ops::witness_batch_plan(f, points));
            let one = outputs(crate::poly_ops::witness_plan(f, points[p]));
            let width = (f.len() - 1) as nat;
            &&& all.len() == 1
            &&& all[0].len() == points.len() * width
            &&& one.len() == 1
            &&& row_of(all[0], p, width) == one[0]
            &&& one[0] == witness(
                crate::reference::values(f),
                points[p].value() as int,
                F::order() as int,
            )
        }),
{
    let q = F::order() as int;
    let fv = crate::reference::values(f);
    let us = crate::reference::values(points);
    let width = (f.len() - 1) as nat;
    let total = points.len() * width;
    let u = points[p];
    // All points.
    let plan = crate::poly_ops::witness_batch_plan(f, points);
    let d3 = step(step(step(idle(), plan[0]), plan[1]), plan[2]);
    let d4 = step(d3, plan[3]);
    let d5 = step(d4, plan[4]);
    run_five(idle(), plan);
    groups_suffice(points.len(), crate::poly_ops::LOCAL_WORK_SIZE);
    assert(d3.slots[0] == fv && d3.slots[1] == us && d3.slots[2] == unknown(total));
    assert(fv.take(f.len() as int) =~= fv);
    let rows = |k: int| witness(fv, us[k], q);
    let new = flat(rows, points.len(), width);
    assert(d4.slots[2] == overwritten(unknown(total), new));
    assert(d4.slots[2].take(total as int) =~= new);
    assert(d5.outputs =~= seq![new]);
    flat_row(rows, points.len(), width, p);
    // One point.
    let plan1 = crate::poly_ops::witness_plan(f, u);
    let e3 = step(step(step(idle(), plan1[0]), plan1[1]), plan1[2]);
    let e4 = step(e3, plan1[3]);
    let e5 = step(e4, plan1[4]);
    run_five(idle(), plan1);
    assert(e3.slots[0] == fv && e3.slots[1] == crate::reference::values(seq![u]) && e3.slots[2]
        == unknown(f.len()));
    assert(e3.slots[1][0] == u.value());
    let single = witness(fv, u.value() as int, q);
    assert(plan1[3]->Launch_global * plan1[3]->Launch_local == 1) by (nonlinear_arith)
        requires
            plan1[3]->Launch_global == 1,
            plan1[3]->Launch_local == 1,
    ;
    assert(e4.slots[2] == overwritten(unknown(f.len()), single));
    assert(e4.slots[2].take(width as int) =~= single);
    assert(e5.outputs =~= seq![single]);
}

/// A sum with a multiple only depends on the residues.
proof fn residue_of_sum(a: int, b: int, m: int, k: int, l: int, q: int)
    requires
        q > 0,
        a % q == b % q,
        k % q == l % q,
    ensures
        (a + m * k) % q == (b + m * l) % q,
{
    vstd::arithmetic::div_mod::lemma_mul_mod_noop_right(m, k, q);
    vstd::arithmetic::div_mod::lemma_mul_mod_noop_right(m, l, q);
    vstd::arithmetic::div_mod::lemma_add_mod_noop(a, m * k, q);
    vstd::arithmetic::div_mod::lemma_add_mod_noop(b, m * l, q);
}

proof fn carried_residue(f: Seq<int>, u: int, s: WitnessShape, q: int, c: nat)
    requires
        q > 0,
        c < s.num_chunks,
    ensures
        carried(first_carries(f, u, s, q), u, s, c) % q == crate::witness::carry_into_chunk(
            f,
            u,
            s,
            c,
        ) % q,
    decreases s.num_chunks - c,
{
    if c + 1 < s.num_chunks {
        carried_residue(f, u, s, q, c + 1);
        let start = (c + 1) * s.chunk_size;
        let x = crate::witness::chunk_value(f, u, s, c + 1, start);
        vstd::arithmetic::div_mod::lemma_mod_twice(x, q);
        residue_of_sum(
            x % q,
            x,
            vstd::arithmetic::power::pow(
                u,
                (crate::witness::chunk_end(s, c + 1) - start) as nat,
            ),
            carried(first_carries(f, u, s, q), u, s, c + 1),
            crate::witness::carry_into_chunk(f, u, s, c + 1),
            q,
        );
        assert(first_carries(f, u, s, q)[c as int + 1] == x % q);
    }
}

/// The three passes give the witness polynomial.
pub proof fn passes_are_witness(f: Seq<int>, u: int, s: WitnessShape, q: int)
    requires
        q > 0,
        s.wf(),
        f.len() == s.poly_len,
    ensures
        third_pass(
            first_pass(f, u, s, q),
            second_carries(first_carries(f, u, s, q), u, s, q),
            u,
            s,
            q,
        ) == witness(f, u, q),
{
    let values = first_pass(f, u, s, q);
    let carries = second_carries(first_carries(f, u, s, q), u, s, q);
    let got = third_pass(values, carries, u, s, q);
    let want = witness(f, u, q);
    let size = s.chunk_size as int;
    let num = s.num_chunks as int;
    let len = s.witness_len() as int;
    crate::witness::chunks_cover_witness(s);
    assert forall|j: int| 0 <= j < len implies got[j] == want[j] by {
        let ci = j / size;
        let c = chunk_of(s, j);
        vstd::arithmetic::div_mod::lemma_fundamental_div_mod(j, size);
        vstd::arithmetic::div_mod::lemma_mod_bound(j, size);
        assert(0 <= ci < num && ci * size <= j < (ci + 1) * size) by (nonlinear_arith)
            requires
                j == size * ci + j % size,
                0 <= j % size < size,
                0 <= j < len,
                num * size >= len,
        ;
        let p = vstd::arithmetic::power::pow(u, (crate::witness::chunk_end(s, c) - j) as nat);
        let x = crate::witness::chunk_value(f, u, s, c, j);
        let y = carried(first_carries(f, u, s, q), u, s, c);
        let z = crate::witness::carry_into_chunk(f, u, s, c);
        carried_residue(f, u, s, q, c);
        vstd::arithmetic::div_mod::lemma_mod_twice(x, q);
        vstd::arithmetic::div_mod::lemma_mod_twice(y, q);
        residue_of_sum(x % q, x, p, y % q, z, q);
        crate::witness::passes_give_witness(f, u, s, c, j);
    }
    assert(got =~= want);
}

/// The commands of the three passes, with the buffer of the second one made after the first.
pub open spec fn passes<F, B>(t: crate::witness::WitnessSlots, s: WitnessShape) -> Seq<Cmd<F, B>> {
    seq![
        crate::witness::phase1(t, s),
        Cmd::Alloc { slot: t.propagated, elem: Elem::Scalar, len: s.total_carries() },
        crate::witness::phase2(t, s),
        crate::witness::phase3(t, s),
    ]
}

/// The three passes on the device leave the witness polynomials of all points, and change no other
/// buffer than the three that they write.
pub proof fn three_passes_on_device<F: PrimeField, B>(
    d: FieldDevice,
    t: crate::witness::WitnessSlots,
    s: WitnessShape,
    f: Seq<int>,
    points: Seq<int>,
)
    requires
        F::order() > 0,
        s.wf(),
        s.poly_len <= u32::MAX,
        s.num_points <= u32::MAX,
        f.len() == s.poly_len,
        points.len() == s.num_points,
        d.slots[t.poly] == f,
        d.slots[t.points] == points,
        d.slots[t.witnesses].len() == s.total_witnesses(),
        d.slots[t.carries].len() == s.total_carries(),
        d.slots[t.propagated].len() == s.total_carries(),
        t.witnesses != t.carries,
        t.witnesses != t.propagated,
        t.witnesses != t.points,
        t.carries != t.propagated,
        t.carries != t.points,
        t.propagated != t.points,
    ensures
        ({
            let q = F::order() as int;
            let e = step(
                step(
                    step(d, crate::witness::phase1::<F, B>(t, s)),
                    crate::witness::phase2::<F, B>(t, s),
                ),
                crate::witness::phase3::<F, B>(t, s),
            );
            &&& e.outputs == d.outputs
            &&& e.slots[t.witnesses] == flat(
                |p: int| witness(f, points[p], q),
                s.num_points as nat,
                s.witness_len(),
            )
            &&& forall|o: usize|
                o != t.witnesses && o != t.carries && o != t.propagated
                    ==> #[trigger] e.slots[o] == d.slots[o]
        }),
{
    let q = F::order() as int;
    let m = s.num_points as nat;
    let len = s.witness_len();
    let k = s.num_chunks as nat;
    crate::witness::chunks_cover_witness(s);
    groups_suffice(s.total_carries(), crate::poly_ops::LOCAL_WORK_SIZE);
    groups_suffice(m, crate::poly_ops::LOCAL_WORK_SIZE);
    let c1 = crate::witness::phase1::<F, B>(t, s);
    let c2 = crate::witness::phase2::<F, B>(t, s);
    let c3 = crate::witness::phase3::<F, B>(t, s);
    assert(s.chunk_size <= s.poly_len);
    assert(shape_arg(c1->Launch_args, 4, 5, 6, 7) == s);
    assert(shape_arg(c2->Launch_args, 6, 4, 5, 3) == s);
    assert(shape_arg(c3->Launch_args, 3, 4, 5, 6) == s);
    let e1 = step(d, c1);
    let e2 = step(e1, c2);
    let e3 = step(e2, c3);
    assert(f.take(s.poly_len as int) =~= f);
    let firsts = |p: int| first_pass(f, points[p], s, q);
    let outs = |p: int| first_carries(f, points[p], s, q);
    let values = flat(firsts, m, len);
    let carries = flat(outs, m, k);
    assert(e1.slots[t.witnesses] =~= values);
    assert(e1.slots[t.carries] =~= carries);
    let seconds = |p: int| second_carries(row_of(carries, p, k), points[p], s, q);
    let ins = flat(seconds, m, k);
    assert(e2.slots[t.propagated] =~= ins);
    assert(e2.slots[t.witnesses] == values);
    let thirds = |p: int| third_pass(row_of(values, p, len), row_of(ins, p, k), points[p], s, q);
    let last = flat(thirds, m, len);
    assert(e3.slots[t.witnesses] =~= last);
    let rows = |p: int| witness(f, points[p], q);
    let want = flat(rows, m, len);
    assert forall|i: int| 0 <= i < want.len() implies last[i] == want[i] by {
        let w = len as int;
        let p = i / w;
        let n = m as int;
        vstd::arithmetic::div_mod::lemma_fundamental_div_mod(i, w);
        vstd::arithmetic::div_mod::lemma_mod_bound(i, w);
        assert(0 <= p < n) by (nonlinear_arith)
            requires
                i == w * p + i % w,
                0 <= i % w < w,
                0 <= i < n * w,
        ;
        flat_row(firsts, m, len, p);
        flat_row(outs, m, k, p);
        flat_row(seconds, m, k, p);
        passes_are_witness(f, points[p], s, q);
        assert(thirds(p) == rows(p));
    }
    assert(last =~= want);
}

/// It does not matter whether the buffer of the second pass is made before or after the first pass.
#[verifier::spinoff_prover]
proof fn phase1_first<F: PrimeField, B>(
    d: FieldDevice,
    t: crate::witness::WitnessSlots,
    s: WitnessShape,
)
    requires
        t.propagated != t.poly,
        t.propagated != t.points,
        t.propagated != t.witnesses,
        t.propagated != t.carries,
    ensures
        ({
            let c = crate::witness::phase1::<F, B>(t, s);
            let a = Cmd::<F, B>::Alloc {
                slot: t.propagated,
                elem: Elem::Scalar,
                len: s.total_carries(),
            };
            step(step(d, c), a) == step(step(d, a), c)
        }),
{
    let c = crate::witness::phase1::<F, B>(t, s);
    let a = Cmd::<F, B>::Alloc {
        slot: t.propagated,
        elem: Elem::Scalar,
        len: s.total_carries(),
    };
    let early = step(d, a);
    let args = c->Launch_args;
    assert(slot_arg(args, 0) == t.poly && slot_arg(args, 1) == t.witnesses && slot_arg(args, 2)
        == t.carries && slot_arg(args, 3) == t.points);
    assert(early.slots[t.poly] == d.slots[t.poly]);
    assert(early.slots[t.points] == d.slots[t.points]);
    assert(early.slots[t.witnesses] == d.slots[t.witnesses]);
    assert(early.slots[t.carries] == d.slots[t.carries]);
    let x = step(step(d, c), a).slots;
    let y = step(early, c).slots;
    assert(x =~= y);
}

/// The three passes on the device leave the witness polynomials of all points, and change no other
/// buffer than the three that they write. The buffer of the second pass is made after the first.
#[verifier::spinoff_prover]
pub proof fn passes_on_device<F: PrimeField, B>(
    d: FieldDevice,
    t: crate::witness::WitnessSlots,
    s: WitnessShape,
    f: Seq<int>,
    points: Seq<int>,
)
    requires
        F::order() > 0,
        s.wf(),
        s.poly_len <= u32::MAX,
        s.num_points <= u32::MAX,
        f.len() == s.poly_len,
        points.len() == s.num_points,
        d.slots[t.poly] == f,
        d.slots[t.points] == points,
        d.slots[t.witnesses].len() == s.total_witnesses(),
        d.slots[t.carries].len() == s.total_carries(),
        t.witnesses != t.carries,
        t.witnesses != t.propagated,
        t.witnesses != t.points,
        t.carries != t.propagated,
        t.carries != t.points,
        t.propagated != t.points,
        t.propagated != t.poly,
    ensures
        ({
            let q = F::order() as int;
            let e = run(d, passes::<F, B>(t, s));
            &&& e.outputs == d.outputs
            &&& e.slots[t.witnesses] == flat(
                |p: int| witness(f, points[p], q),
                s.num_points as nat,
                s.witness_len(),
            )
            &&& forall|o: usize|
                o != t.witnesses && o != t.carries && o != t.propagated
                    ==> #[trigger] e.slots[o] == d.slots[o]
        }),
{
    let log = passes::<F, B>(t, s);
    let early = step(d, log[1]);
    run_four(d, log);
    phase1_first::<F, B>(d, t, s);
    three_passes_on_device::<F, B>(early, t, s, f, points);
}

/// Whether a command is one of a sort-based MSM: it works on the buffers of the MSM alone, and moves
/// no field elements.
pub open spec fn is_msm<F: PrimeField, B>(c: Cmd<F, B>) -> bool {
    match c {
        Cmd::Alloc { slot, .. } => in_msm(slot),
        Cmd::Upload { slot, data } => in_msm(slot) && !(data is Scalars),
        Cmd::Write { slot, data } => !(data is Scalars),
        Cmd::Launch { kernel, .. } => msm_kernel(kernel),
        Cmd::Read { elem, .. } => elem != Elem::Scalar,
        Cmd::Free { slot } => in_msm(slot),
    }
}

/// Whether a slot is one of those that the steps of a sort-based MSM write.
pub open spec fn in_msm(slot: usize) -> bool {
    crate::sorted_msm::DIGITS <= slot < crate::sorted_msm::FIRST_FREE
}

/// Whether a kernel is one of a sort-based MSM.
pub open spec fn msm_kernel(kernel: KernelId) -> bool {
    match kernel {
        KernelId::PreprocessSignedDigits | KernelId::DecomposeToPairs | KernelId::CountBuckets
        | KernelId::PrefixSum | KernelId::ScatterToSorted | KernelId::AccumulateSortedBuckets
        | KernelId::AccumulateChunked | KernelId::ReducePartialBuckets
        | KernelId::AccumulateAllSortedBuckets | KernelId::ReduceBucketsChunked
        | KernelId::CombineChunksToWindows | KernelId::ReduceWindows | KernelId::CopyAtOffset
        | KernelId::U32FillZero | KernelId::U32CopyBuffer => true,
        _ => false,
    }
}

/// Whether all commands are those of a sort-based MSM.
pub open spec fn all_msm<F: PrimeField, B>(log: Seq<Cmd<F, B>>) -> bool {
    forall|i: int| 0 <= i < log.len() ==> is_msm(#[trigger] log[i])
}

/// A sort-based MSM leaves all other buffers alone, and hands out no field elements.
pub proof fn msm_leaves_fields<F: PrimeField, B>(d: FieldDevice, log: Seq<Cmd<F, B>>, o: usize)
    requires
        all_msm(log),
        !in_msm(o),
    ensures
        run(d, log).slots[o] == d.slots[o],
        run(d, log).outputs == d.outputs,
    decreases log.len(),
{
    if log.len() > 0 {
        let rest = log.drop_last();
        assert forall|i: int| 0 <= i < rest.len() implies is_msm(#[trigger] rest[i]) by {
            assert(rest[i] == log[i]);
        }
        msm_leaves_fields(d, rest, o);
        assert(is_msm(log[log.len() - 1]));
    }
}

/// Sequence `i` of sequences of `n` elements that lie back to back.
proof fn concat_row<T>(s: Seq<Seq<T>>, n: nat, i: int)
    requires
        forall|k: int| 0 <= k < s.len() ==> (#[trigger] s[k]).len() == n,
        0 <= i < s.len(),
    ensures
        0 <= i * n <= (i + 1) * n <= crate::poly_ops::concat(s).len(),
        crate::poly_ops::concat(s).subrange(i * n, (i + 1) * n) == s[i],
    decreases s.len(),
{
    let rest = s.drop_last();
    let w = n as int;
    let l = s.len() as int;
    crate::poly_ops::concat_len(s, n);
    assert forall|k: int| 0 <= k < rest.len() implies (#[trigger] rest[k]).len() == n by {
        assert(rest[k] == s[k]);
    }
    crate::poly_ops::concat_len(rest, n);
    assert(0 <= i * w && (i + 1) * w <= l * w && (l - 1) * w + w == l * w && (i + 1) * w == i * w
        + w) by (nonlinear_arith)
        requires
            0 <= i < l,
            w >= 0,
    ;
    let all = crate::poly_ops::concat(s);
    assert(s.last() == s[l - 1]);
    if i < l - 1 {
        concat_row(rest, n, i);
        assert((i + 1) * w <= (l - 1) * w) by (nonlinear_arith)
            requires
                i + 1 <= l - 1,
                w >= 0,
        ;
        assert(all.subrange(i * n, (i + 1) * n) =~= crate::poly_ops::concat(rest).subrange(
            i * n,
            (i + 1) * n,
        ));
    } else {
        assert(all.subrange(i * n, (i + 1) * n) =~= s[i]);
    }
}

/// The polynomials, as numbers.
pub open spec fn poly_values<F: PrimeField>(polys: Seq<Seq<F>>) -> Seq<Seq<int>> {
    polys.map_values(|p: Seq<F>| crate::reference::values(p))
}

/// The linear combination of polynomials of `n` elements.
pub open spec fn combination_of(
    polys: Seq<Seq<int>>,
    coeffs: Seq<int>,
    n: nat,
    q: int,
) -> Seq<int> {
    Seq::new(n, |j: int| crate::reference::combination(polys, coeffs, j, polys.len()) % q)
}

/// The values of polynomials at a point.
pub open spec fn values_at(polys: Seq<Seq<int>>, u: int, q: int) -> Seq<int> {
    Seq::new(polys.len(), |i: int| crate::reference::eval(polys[i], u) % q)
}

/// The values of polynomials at points, point by point.
pub open spec fn evaluation_rows<F: PrimeField>(polys: Seq<Seq<F>>, points: Seq<F>) -> Seq<int> {
    let us = crate::reference::values(points);
    flat(
        |p: int| values_at(poly_values(polys), us[p], F::order() as int),
        points.len(),
        polys.len(),
    )
}

proof fn rows_of_concat<F: PrimeField>(polys: Seq<Seq<F>>, n: nat)
    requires
        forall|k: int| 0 <= k < polys.len() ==> (#[trigger] polys[k]).len() == n,
    ensures
        Seq::new(
            polys.len(),
            |i: int| row_of(crate::reference::values(crate::poly_ops::concat(polys)), i, n),
        ) == poly_values(polys),
{
    let all = crate::poly_ops::concat(polys);
    let rows = Seq::new(polys.len(), |i: int| row_of(crate::reference::values(all), i, n));
    assert forall|i: int| 0 <= i < polys.len() implies rows[i] == poly_values(polys)[i] by {
        concat_row(polys, n, i);
        assert(rows[i] =~= crate::reference::values(all.subrange(i * n, (i + 1) * n)));
    }
    assert(rows =~= poly_values(polys));
}

/// Three sessions compute what they are for: the sum of multiples of polynomials, the values of
/// polynomials at points, and the interpolation of a polynomial in its lowest variable.
///
/// The lengths that kernels are told are 32 bit words, so that the law needs lengths that fit.
pub proof fn sessions_compute<F: PrimeField>(polys: Seq<Seq<F>>, coeffs: Seq<F>, points: Seq<F>)
    requires
        crate::poly_ops::same_len(polys),
        polys.len() == coeffs.len(),
        polys[0].len() > 0,
        polys[0].len() <= u32::MAX,
        polys.len() <= u32::MAX,
        points.len() <= u32::MAX,
    ensures
        ({
            let q = F::order() as int;
            let pv = poly_values(polys);
            &&& outputs(crate::poly_ops::linear_combine_plan(polys, coeffs)) == seq![
                combination_of(pv, crate::reference::values(coeffs), polys[0].len(), q),
            ]
            &&& outputs(crate::poly_ops::eval_plan(polys, points)) == seq![
                evaluation_rows(polys, points),
            ]
            &&& outputs(
                crate::poly_ops::fix_var_plan(
                    KernelId::FixVar,
                    polys[0],
                    coeffs[0],
                    Elem::Scalar,
                    polys[0].len() / 2,
                ),
            ) == seq![fixed(pv[0], coeffs[0].value() as int, polys[0].len() / 2, q)]
        }),
{
    let q = F::order() as int;
    let n = polys[0].len();
    let k = polys.len();
    let m = points.len();
    let pv = poly_values(polys);
    let us = crate::reference::values(points);
    let cv = crate::reference::values(coeffs);
    let all = crate::reference::values(crate::poly_ops::concat(polys));
    rows_of_concat(polys, n);
    fix_var_outputs(polys[0], coeffs[0]);
    // Linear combination.
    let plan = crate::poly_ops::linear_combine_plan(polys, coeffs);
    let d3 = step(step(step(idle(), plan[0]), plan[1]), plan[2]);
    let d4 = step(d3, plan[3]);
    run_five(idle(), plan);
    groups_suffice(n, crate::poly_ops::LOCAL_WORK_SIZE);
    assert(d3.slots[0] == all && d3.slots[1] == cv && d3.slots[2] == unknown(n));
    let sum = combination_of(pv, cv, n, q);
    assert(d4.slots[2] =~= sum);
    assert(d4.slots[2].take(n as int) =~= sum);
    assert(step(d4, plan[4]).outputs =~= seq![sum]);
    // Evaluations.
    let plan1 = crate::poly_ops::eval_plan(polys, points);
    let total = k * m;
    let e3 = step(step(step(idle(), plan1[0]), plan1[1]), plan1[2]);
    let e4 = step(e3, plan1[3]);
    run_five(idle(), plan1);
    groups_suffice(total, crate::poly_ops::LOCAL_WORK_SIZE);
    assert(e3.slots[0] == all && e3.slots[1] == us && e3.slots[2] == unknown(total));
    eval_buffer::<F>(polys, us, n, q);
    let want = evaluation_rows(polys, points);
    assert(m * k == k * m) by (nonlinear_arith);
    assert(e4.slots[2] =~= want);
    assert(e4.slots[2].take(total as int) =~= want);
    assert(step(e4, plan1[4]).outputs =~= seq![want]);
}

/// What the kernel for evaluations writes.
proof fn eval_buffer<F: PrimeField>(polys: Seq<Seq<F>>, us: Seq<int>, n: nat, q: int)
    requires
        forall|k: int| 0 <= k < polys.len() ==> (#[trigger] polys[k]).len() == n,
    ensures
        ({
            let all = crate::reference::values(crate::poly_ops::concat(polys));
            flat(
                |p: int|
                    Seq::new(
                        polys.len(),
                        |i: int| crate::reference::eval(row_of(all, i, n), us[p]) % q,
                    ),
                us.len(),
                polys.len(),
            ) == flat(
                |p: int| values_at(poly_values(polys), us[p], q),
                us.len(),
                polys.len(),
            )
        }),
{
    let all = crate::reference::values(crate::poly_ops::concat(polys));
    let pv = poly_values(polys);
    let k = polys.len();
    rows_of_concat(polys, n);
    let rows = Seq::new(k, |i: int| row_of(all, i, n));
    let f = |p: int|
        Seq::new(k, |i: int| crate::reference::eval(row_of(all, i, n), us[p]) % q);
    let g = |p: int| values_at(pv, us[p], q);
    assert forall|p: int| #[trigger] f(p) == g(p) by {
        let a = f(p);
        let b = g(p);
        assert forall|i: int| 0 <= i < k implies a[i] == b[i] by {
            assert(rows[i] == pv[i]);
        }
        assert(a =~= b);
    }
    assert(flat(f, us.len(), k) =~= flat(g, us.len(), k));
}

/// The evaluations.
proof fn evaluations_first<F: PrimeField>(
    polys: Seq<Seq<F>>,
    points: Seq<F>,
    coeffs: Seq<F>,
    s: WitnessShape,
)
    requires
        crate::poly_ops::same_len(polys),
        polys[0].len() <= u32::MAX,
        polys.len() <= u32::MAX,
        points.len() <= u32::MAX,
    ensures
        ({
            let plan = crate::combined_ops::eval_and_witness_plan(polys, points, coeffs, s);
            let d = run(idle(), plan.take(5));
            &&& d.slots[0] == crate::reference::values(crate::poly_ops::concat(polys))
            &&& d.slots[1] == crate::reference::values(points)
            &&& d.slots[2] == crate::reference::values(coeffs)
            &&& d.slots[3] == evaluation_rows(polys, points)
            &&& d.outputs == Seq::<Seq<int>>::empty()
        }),
{
    let q = F::order() as int;
    let k = polys.len();
    let m = points.len();
    let total = k * m;
    let us = crate::reference::values(points);
    let all = crate::reference::values(crate::poly_ops::concat(polys));
    eval_buffer::<F>(polys, us, polys[0].len(), q);
    let plan = crate::combined_ops::eval_and_witness_plan(polys, points, coeffs, s);
    let five = plan.take(5);
    let d4 = step(step(step(step(idle(), plan[0]), plan[1]), plan[2]), plan[3]);
    run_five(idle(), five);
    groups_suffice(total, crate::poly_ops::LOCAL_WORK_SIZE);
    assert(d4.slots[0] == all && d4.slots[1] == us && d4.slots[3] == unknown(total));
    assert(m * k == k * m) by (nonlinear_arith);
    let d5 = step(d4, plan[4]);
    assert(d5.slots[3] =~= evaluation_rows(polys, points));
}

/// The linear combination after the evaluations.
proof fn combination_second<F: PrimeField>(
    d: FieldDevice,
    polys: Seq<Seq<F>>,
    points: Seq<F>,
    coeffs: Seq<F>,
    s: WitnessShape,
)
    requires
        crate::poly_ops::same_len(polys),
        polys.len() == coeffs.len(),
        polys[0].len() <= u32::MAX,
        polys.len() <= u32::MAX,
        d.slots[0] == crate::reference::values(crate::poly_ops::concat(polys)),
        d.slots[2] == crate::reference::values(coeffs),
        d.slots[3] == evaluation_rows(polys, points),
        d.outputs.len() == 0,
    ensures
        ({
            let plan = crate::combined_ops::eval_and_witness_plan(polys, points, coeffs, s);
            let e = run(d, plan.subrange(5, 9));
            let sum = combination_of(
                poly_values(polys),
                crate::reference::values(coeffs),
                polys[0].len(),
                F::order() as int,
            );
            &&& e.slots[1] == d.slots[1]
            &&& e.slots[4] == sum
            &&& e.outputs == seq![evaluation_rows(polys, points), sum]
        }),
{
    let q = F::order() as int;
    let n = polys[0].len();
    let cv = crate::reference::values(coeffs);
    let all = crate::reference::values(crate::poly_ops::concat(polys));
    let sum = combination_of(poly_values(polys), cv, n, q);
    let evals = evaluation_rows(polys, points);
    let total = polys.len() * points.len();
    assert(points.len() * polys.len() == total) by (nonlinear_arith)
        requires
            total == polys.len() * points.len(),
    ;
    rows_of_concat(polys, n);
    let plan = crate::combined_ops::eval_and_witness_plan(polys, points, coeffs, s);
    let next = plan.subrange(5, 9);
    let e2 = step(step(d, plan[5]), plan[6]);
    let e3 = step(e2, plan[7]);
    run_four(d, next);
    groups_suffice(n, crate::poly_ops::LOCAL_WORK_SIZE);
    assert(evals.take(total as int) =~= evals);
    assert(e2.slots[4] == unknown(n) && e2.slots[0] == all && e2.slots[2] == cv);
    assert(e3.slots[4] =~= sum);
    assert(e3.slots[4].take(n as int) =~= sum);
    assert(step(e3, plan[8]).outputs =~= seq![evals, sum]);
}

/// The one session for evaluations and witness polynomials hands out three things: the values of all
/// polynomials at all points, the linear combination of the polynomials, and the witness polynomials
/// of the combination for all points.
///
/// The lengths that kernels are told are 32 bit words, so that the law needs lengths that fit.
pub proof fn evaluations_and_witnesses<F: PrimeField>(
    polys: Seq<Seq<F>>,
    points: Seq<F>,
    coeffs: Seq<F>,
    s: WitnessShape,
)
    requires
        crate::poly_ops::same_len(polys),
        polys.len() == coeffs.len(),
        points.len() > 0,
        polys[0].len() >= 2,
        polys[0].len() <= u32::MAX,
        polys.len() <= u32::MAX,
        points.len() <= u32::MAX,
        s.wf(),
        s.poly_len == polys[0].len(),
        s.num_points == points.len(),
    ensures
        ({
            let q = F::order() as int;
            let us = crate::reference::values(points);
            let sum = combination_of(
                poly_values(polys),
                crate::reference::values(coeffs),
                polys[0].len(),
                q,
            );
            outputs(crate::combined_ops::eval_and_witness_plan(polys, points, coeffs, s)) == seq![
                evaluation_rows(polys, points),
                sum,
                flat(|p: int| witness(sum, us[p], q), points.len(), s.witness_len()),
            ]
        }),
{
    let q = F::order() as int;
    points[0].in_range();
    let us = crate::reference::values(points);
    let sum = combination_of(
        poly_values(polys),
        crate::reference::values(coeffs),
        polys[0].len(),
        q,
    );
    let t = crate::combined_ops::witness_slots();
    let plan = crate::combined_ops::eval_and_witness_plan(polys, points, coeffs, s);
    let five = plan.take(5);
    let next = plan.subrange(5, 9);
    let make = plan.subrange(9, 11);
    let three = passes::<F, ()>(t, s);
    let last = plan.subrange(15, 16);
    assert(plan =~= five + next + make + three + last);
    run_concat(idle(), five, next);
    run_concat(idle(), five + next, make);
    run_concat(idle(), five + next + make, three);
    run_concat(idle(), five + next + make + three, last);
    let d = run(idle(), five);
    evaluations_first(polys, points, coeffs, s);
    let e = run(d, next);
    combination_second(d, polys, points, coeffs, s);
    let f = run(e, make);
    run_two(e, make);
    assert(f.slots[t.poly] == sum && f.slots[t.points] == us);
    passes_on_device::<F, ()>(f, t, s, sum, us);
    let g = run(f, three);
    let h = run(g, last);
    run_push(g, Seq::empty(), plan[15]);
    assert(last =~= Seq::empty().push(plan[15]));
    let rows = flat(|p: int| witness(sum, us[p], q), points.len(), s.witness_len());
    assert(g.slots[t.witnesses] == rows);
    assert(rows.take(s.total_witnesses() as int) =~= rows);
    assert(h.outputs =~= seq![evaluation_rows(polys, points), sum, rows]);
}

} // verus!
