//! What the fused open operation commits to.

use vstd::prelude::*;

use crate::field::PrimeField;
use crate::field_device::FieldDevice;
use crate::fused_msm::{MsmSizes, BN254_SCALAR_BITS, FIELD_WORK_SIZE};
use crate::fused_open::{
    CARRIES, CHALLENGES, COEFF, COMBINED, COMMITMENTS, FIRST_COEFF, POLY, PROPAGATED,
    WITNESS, WITNESS_SCALARS,
};
use crate::group::Group;
use crate::session::{Cmd, DataView, Elem};
use crate::sorted_msm::SCALARS;
use crate::sorted_sum::SortedRun;
use crate::witness::WitnessShape;

verus! {

/// What comes before the rounds.
pub open spec fn before_rounds<F, B>(
    poly: Seq<F>,
    challenges: Seq<F>,
    bases: Seq<B>,
    s: MsmSizes,
) -> Seq<Cmd<F, B>> {
    let len = poly.len();
    let k = challenges.len();
    crate::fused_open::shared_plan::<F, B>(poly, bases, s) + seq![
        Cmd::Alloc { slot: SCALARS, elem: Elem::Scalar, len: len / 2 },
    ] + crate::fused_open::iter_buffers_plan(len, k) + seq![
        Cmd::Alloc { slot: COMMITMENTS, elem: Elem::Point, len: k },
        Cmd::Upload { slot: CHALLENGES, data: DataView::Scalars(challenges) },
    ]
}

/// The session of [`crate::fused_commit::FusedPolyCommit::fused_open`] up to the MSM of round `i`.
pub open spec fn open_log<F, B>(
    poly: Seq<F>,
    challenges: Seq<F>,
    bases: Seq<B>,
    s: MsmSizes,
    i: nat,
) -> Seq<Cmd<F, B>> {
    before_rounds(poly, challenges, bases, s) + crate::fused_open::open_rounds_plan(poly.len(), i)
        + crate::fused_open::open_round_plan(poly.len(), i).take(2)
}

/// The field elements on the device before the rounds.
spec fn ready<F: PrimeField>(d: FieldDevice, poly: Seq<F>, challenges: Seq<F>) -> bool {
    &&& d.slots[POLY] == crate::reference::values(poly)
    &&& d.slots[CHALLENGES] == crate::reference::values(challenges)
    &&& d.slots[SCALARS].len() == poly.len() / 2
    &&& d.outputs.len() == 0
    &&& forall|i: nat|
        i < challenges.len() ==> (
        #[trigger] d.slots[crate::fused_open::iter_slot(i)]).len() == crate::poly_ops::halved(
            poly.len(),
            i + 1,
        )
}

proof fn iter_buffers_run<F: PrimeField, B>(d: FieldDevice, len: nat, k: nat)
    requires
        k <= 64,
    ensures
        ({
            let e = crate::field_device::run(
                d,
                crate::fused_open::iter_buffers_plan::<F, B>(len, k),
            );
            &&& e.outputs == d.outputs
            &&& forall|o: usize| o < 32 ==> #[trigger] e.slots[o] == d.slots[o]
            &&& forall|i: nat|
                i < k ==> (
                #[trigger] e.slots[crate::fused_open::iter_slot(i)]).len() == crate::poly_ops::halved(
                    len,
                    i + 1,
                )
        }),
    decreases k,
{
    let plan = crate::fused_open::iter_buffers_plan::<F, B>(len, k);
    if k > 0 {
        let j = (k - 1) as nat;
        iter_buffers_run::<F, B>(d, len, j);
        assert(plan.drop_last() =~= crate::fused_open::iter_buffers_plan::<F, B>(len, j));
        assert(plan.last() == plan[k - 1]);
    }
}

/// Sharing buffers changes no field elements but the polynomial.
proof fn shared_run<F: PrimeField, B>(poly: Seq<F>, bases: Seq<B>, s: MsmSizes)
    ensures
        ({
            let e = crate::field_device::run(
                crate::field_device::idle(),
                crate::fused_open::shared_plan::<F, B>(poly, bases, s),
            );
            &&& e.slots[POLY] == crate::reference::values(poly)
            &&& e.outputs.len() == 0
        }),
{
    let idle = crate::field_device::idle();
    let plan = crate::fused_open::shared_plan::<F, B>(poly, bases, s);
    let head = plan.take(2);
    let rest = plan.skip(2);
    assert(plan =~= head + rest);
    crate::field_device::run_concat(idle, head, rest);
    crate::field_device::run_two(idle, head);
    assert(crate::field_device::all_msm(rest));
    crate::field_device::msm_leaves_fields(crate::field_device::run(idle, head), rest, POLY);
}

proof fn ready_before_rounds<F: PrimeField, B>(
    poly: Seq<F>,
    challenges: Seq<F>,
    bases: Seq<B>,
    s: MsmSizes,
)
    requires
        challenges.len() <= 64,
    ensures
        ready(
            crate::field_device::run(
                crate::field_device::idle(),
                before_rounds(poly, challenges, bases, s),
            ),
            poly,
            challenges,
        ),
{
    let idle = crate::field_device::idle();
    let len = poly.len();
    let k = challenges.len();
    let shared = crate::fused_open::shared_plan::<F, B>(poly, bases, s);
    let scalars: Seq<Cmd<F, B>> = seq![
        Cmd::Alloc { slot: SCALARS, elem: Elem::Scalar, len: len / 2 },
    ];
    let iters = crate::fused_open::iter_buffers_plan::<F, B>(len, k);
    let last: Seq<Cmd<F, B>> = seq![
        Cmd::Alloc { slot: COMMITMENTS, elem: Elem::Point, len: k },
        Cmd::Upload { slot: CHALLENGES, data: DataView::Scalars(challenges) },
    ];
    crate::field_device::run_concat(idle, shared, scalars);
    crate::field_device::run_concat(idle, shared + scalars, iters);
    crate::field_device::run_concat(idle, shared + scalars + iters, last);
    shared_run::<F, B>(poly, bases, s);
    let d1 = crate::field_device::run(idle, shared);
    crate::field_device::run_push(d1, Seq::<Cmd<F, B>>::empty(), scalars[0]);
    assert(scalars =~= Seq::empty().push(scalars[0]));
    let d2 = crate::field_device::run(d1, scalars);
    iter_buffers_run::<F, B>(d2, len, k);
    let d3 = crate::field_device::run(d2, iters);
    crate::field_device::run_two(d3, last);
    let d4 = crate::field_device::run(d3, last);
    assert forall|i: nat| i < k implies (
    #[trigger] d4.slots[crate::fused_open::iter_slot(i)]).len() == crate::poly_ops::halved(
        len,
        i + 1,
    ) by {
        assert(d4.slots[crate::fused_open::iter_slot(i)]
            == d3.slots[crate::fused_open::iter_slot(i)]);
    }
}

/// What the rounds have done: the first `i` intermediate polynomials are on the device.
spec fn fixed_so_far<F: PrimeField>(
    d: FieldDevice,
    poly: Seq<F>,
    challenges: Seq<F>,
    i: nat,
) -> bool {
    &&& ready(d, poly, challenges)
    &&& forall|j: nat|
        j < i ==> #[trigger] d.slots[crate::fused_open::iter_slot(j)]
            == crate::commit_laws::intermediate_of(poly, challenges, j)
}

/// The beginning of a round makes an intermediate polynomial and puts it in the place of the
/// scalars.
proof fn round_begins<F: PrimeField, B>(
    d: FieldDevice,
    poly: Seq<F>,
    challenges: Seq<F>,
    i: nat,
)
    requires
        i < challenges.len() <= 64,
        poly.len() / 2 <= u32::MAX,
        fixed_so_far(d, poly, challenges, i),
    ensures
        ({
            let e = crate::field_device::run(
                d,
                crate::fused_open::open_round_plan::<F, B>(poly.len(), i).take(2),
            );
            &&& fixed_so_far(e, poly, challenges, i + 1)
            &&& e.slots[SCALARS].take(crate::poly_ops::halved(poly.len(), i + 1) as int)
                == crate::commit_laws::intermediate_of(poly, challenges, i)
        }),
{
    let n = crate::poly_ops::halved(poly.len(), i + 1);
    let q = F::order() as int;
    let pv = crate::reference::values(poly);
    let cv = crate::reference::values(challenges);
    let plan = crate::fused_open::open_round_plan::<F, B>(poly.len(), i).take(2);
    let from = if i == 0 {
        POLY
    } else {
        crate::fused_open::iter_slot((i - 1) as nat)
    };
    let to = crate::fused_open::iter_slot(i);
    crate::field_device::fixed_in_turn_len(pv, cv, i, q);
    crate::field_device::fixed_in_turn_len(pv, cv, i + 1, q);
    crate::field_device::halved_at_most(poly.len(), i + 1);
    crate::field_device::groups_suffice(n, FIELD_WORK_SIZE);
    let old = crate::field_device::fixed_in_turn(pv, cv, i, q);
    let new = crate::commit_laws::intermediate_of(poly, challenges, i);
    assert(d.slots[from] == old);
    crate::field_device::run_two(d, plan);
    let e1 = crate::field_device::step(d, plan[0]);
    let e2 = crate::field_device::step(e1, plan[1]);
    assert(d.slots[to].len() == n);
    assert(e1.slots[to] =~= new);
    assert(new.take(n as int) =~= new);
    assert(e2.slots[SCALARS].take(n as int) =~= new);
    assert forall|j: nat| j < challenges.len() && j != i implies e2.slots[#[trigger] crate::fused_open::iter_slot(j)]
        == d.slots[crate::fused_open::iter_slot(j)] by {}
    assert(e2.slots[to] == new);
}

/// The rest of a round leaves the field elements alone.
proof fn round_ends<F: PrimeField, B>(d: FieldDevice, poly: Seq<F>, challenges: Seq<F>, i: nat)
    requires
        i < challenges.len() <= 64,
        fixed_so_far(d, poly, challenges, i + 1),
    ensures
        fixed_so_far(
            crate::field_device::run(
                d,
                crate::fused_open::open_round_plan::<F, B>(poly.len(), i).skip(2),
            ),
            poly,
            challenges,
            i + 1,
        ),
{
    let n = crate::poly_ops::halved(poly.len(), i + 1);
    let rest = crate::fused_open::open_round_plan::<F, B>(poly.len(), i).skip(2);
    let msm = crate::fused_open::msm_plan::<F, B>(SCALARS, crate::fused_open::open_params(n));
    assert(crate::field_device::all_msm(msm));
    assert forall|j: int| 0 <= j < rest.len() implies crate::field_device::is_msm(
        #[trigger] rest[j],
    ) by {
        if j < msm.len() {
            assert(rest[j] == msm[j]);
        }
    }
    let e = crate::field_device::run(d, rest);
    assert forall|o: usize| !crate::field_device::in_msm(o) implies #[trigger] e.slots[o]
        == d.slots[o] && e.outputs == d.outputs by {
        crate::field_device::msm_leaves_fields(d, rest, o);
    }
    crate::field_device::msm_leaves_fields(d, rest, SCALARS);
    assert forall|j: nat| j < 64 implies !crate::field_device::in_msm(
        #[trigger] crate::fused_open::iter_slot(j),
    ) by {}
}

/// All rounds before round `i`.
proof fn rounds_run<F: PrimeField, B>(
    d: FieldDevice,
    poly: Seq<F>,
    challenges: Seq<F>,
    i: nat,
)
    requires
        i <= challenges.len() <= 64,
        poly.len() / 2 <= u32::MAX,
        ready(d, poly, challenges),
    ensures
        fixed_so_far(
            crate::field_device::run(
                d,
                crate::fused_open::open_rounds_plan::<F, B>(poly.len(), i),
            ),
            poly,
            challenges,
            i,
        ),
    decreases i,
{
    if i > 0 {
        let j = (i - 1) as nat;
        rounds_run::<F, B>(d, poly, challenges, j);
        let before = crate::fused_open::open_rounds_plan::<F, B>(poly.len(), j);
        let round = crate::fused_open::open_round_plan::<F, B>(poly.len(), j);
        let d1 = crate::field_device::run(d, before);
        crate::field_device::run_concat(d, before, round);
        assert(round =~= round.take(2) + round.skip(2));
        crate::field_device::run_concat(d1, round.take(2), round.skip(2));
        round_begins::<F, B>(d1, poly, challenges, j);
        round_ends::<F, B>(
            crate::field_device::run(d1, round.take(2)),
            poly,
            challenges,
            j,
        );
    }
}

/// The intermediate polynomials.
pub open spec fn intermediates_of<F: PrimeField>(poly: Seq<F>, challenges: Seq<F>) -> Seq<
    Seq<int>,
> {
    Seq::new(
        challenges.len(),
        |i: int| crate::commit_laws::intermediate_of(poly, challenges, i as nat),
    )
}

/// The polynomial and its intermediate polynomials are on the device.
spec fn holds_all<F: PrimeField>(d: FieldDevice, poly: Seq<F>, challenges: Seq<F>) -> bool {
    &&& d.slots[POLY] == crate::reference::values(poly)
    &&& forall|j: nat|
        j < challenges.len() ==> #[trigger] d.slots[crate::fused_open::iter_slot(j)]
            == crate::commit_laws::intermediate_of(poly, challenges, j)
}

proof fn reads_run<F: PrimeField, B>(d: FieldDevice, poly: Seq<F>, challenges: Seq<F>, k: nat)
    requires
        k <= challenges.len() <= 64,
        holds_all(d, poly, challenges),
    ensures
        ({
            let e = crate::field_device::run(
                d,
                crate::fused_open::iter_reads_plan::<F, B>(poly.len(), k),
            );
            &&& e.slots == d.slots
            &&& e.outputs == d.outputs + intermediates_of(poly, challenges).take(k as int)
        }),
    decreases k,
{
    let plan = crate::fused_open::iter_reads_plan::<F, B>(poly.len(), k);
    let all = intermediates_of(poly, challenges);
    if k == 0 {
        assert(d.outputs + all.take(0) =~= d.outputs);
    } else {
        let j = (k - 1) as nat;
        reads_run::<F, B>(d, poly, challenges, j);
        assert(plan.drop_last() =~= crate::fused_open::iter_reads_plan::<F, B>(poly.len(), j));
        assert(plan.last() == plan[k - 1]);
        let new = crate::commit_laws::intermediate_of(poly, challenges, j);
        crate::field_device::fixed_in_turn_len(
            crate::reference::values(poly),
            crate::reference::values(challenges),
            k,
            F::order() as int,
        );
        assert(d.slots[crate::fused_open::iter_slot(j)] == new);
        assert(new.take(new.len() as int) =~= new);
        assert(crate::field_device::run(d, plan).outputs =~= d.outputs + all.take(k as int));
    }
}

/// What the session up to the second phase leaves on the device, and hands out.
proof fn phase2_run<F: PrimeField, B>(
    poly: Seq<F>,
    challenges: Seq<F>,
    bases: Seq<B>,
    s: MsmSizes,
)
    requires
        challenges.len() <= 64,
        poly.len() / 2 <= u32::MAX,
    ensures
        ({
            let e = crate::field_device::run(
                crate::field_device::idle(),
                crate::fused_open::phase2_plan(poly, challenges, bases, s),
            );
            &&& holds_all(e, poly, challenges)
            &&& e.outputs == intermediates_of(poly, challenges)
        }),
{
    let idle = crate::field_device::idle();
    let len = poly.len();
    let k = challenges.len();
    let plan = crate::fused_open::phase2_plan(poly, challenges, bases, s);
    let all = intermediates_of(poly, challenges);
    if k == 0 {
        let shared = crate::fused_open::shared_plan::<F, B>(poly, bases, s);
        let rest = plan.skip(shared.len() as int);
        assert(plan =~= shared + rest);
        crate::field_device::run_concat(idle, shared, rest);
        shared_run::<F, B>(poly, bases, s);
        let d = crate::field_device::run(idle, shared);
        crate::field_device::run_two(d, rest);
        assert(all =~= d.outputs);
    } else {
        let before = before_rounds(poly, challenges, bases, s);
        let rounds = crate::fused_open::open_rounds_plan::<F, B>(len, k);
        let reads = crate::fused_open::iter_reads_plan::<F, B>(len, k);
        let last: Seq<Cmd<F, B>> = seq![
            Cmd::Read { slot: COMMITMENTS, elem: Elem::Point, len: k },
            Cmd::Free { slot: CHALLENGES },
        ];
        assert(plan =~= before + rounds + reads + last);
        crate::field_device::run_concat(idle, before, rounds);
        crate::field_device::run_concat(idle, before + rounds, reads);
        crate::field_device::run_concat(idle, before + rounds + reads, last);
        ready_before_rounds::<F, B>(poly, challenges, bases, s);
        let d1 = crate::field_device::run(idle, before);
        rounds_run::<F, B>(d1, poly, challenges, k);
        let d2 = crate::field_device::run(d1, rounds);
        reads_run::<F, B>(d2, poly, challenges, k);
        let d3 = crate::field_device::run(d2, reads);
        crate::field_device::run_two(d3, last);
        let d4 = crate::field_device::run(d3, last);
        assert(all.take(k as int) =~= all);
        assert(d4.outputs =~= all);
        assert forall|j: nat| j < k implies #[trigger] d4.slots[crate::fused_open::iter_slot(j)]
            == crate::commit_laws::intermediate_of(poly, challenges, j) by {
            assert(d4.slots[crate::fused_open::iter_slot(j)]
                == d3.slots[crate::fused_open::iter_slot(j)]);
        }
    }
}

/// The linear combination of the polynomial and its first `m - 1` intermediate polynomials.
pub open spec fn combined_of<F: PrimeField>(
    poly: Seq<F>,
    challenges: Seq<F>,
    coeffs: Seq<F>,
    m: nat,
) -> Seq<int> {
    Seq::new(
        poly.len(),
        |j: int|
            crate::combined_ops::combined_value(
                crate::reference::values(poly),
                intermediates_of(poly, challenges),
                crate::reference::values(coeffs),
                j,
                m,
            ) % (F::order() as int),
    )
}

proof fn first_term_run<F: PrimeField, B>(
    d: FieldDevice,
    poly: Seq<F>,
    challenges: Seq<F>,
    coeffs: Seq<F>,
)
    requires
        coeffs.len() >= 1,
        challenges.len() <= 64,
        poly.len() <= u32::MAX,
        holds_all(d, poly, challenges),
    ensures
        ({
            let e = crate::field_device::run(
                d,
                crate::fused_open::first_term_plan::<F, B>(coeffs[0], poly.len()),
            );
            &&& holds_all(e, poly, challenges)
            &&& e.slots[COMBINED] == combined_of(poly, challenges, coeffs, 1)
            &&& e.outputs == d.outputs
        }),
{
    let len = poly.len();
    let pv = crate::reference::values(poly);
    let cv = crate::reference::values(coeffs);
    let q = F::order() as int;
    let plan = crate::fused_open::first_term_plan::<F, B>(coeffs[0], len);
    crate::field_device::run_three(d, plan);
    crate::field_device::groups_suffice(len, FIELD_WORK_SIZE);
    let e1 = crate::field_device::step(d, plan[0]);
    let e2 = crate::field_device::step(e1, plan[1]);
    let e3 = crate::field_device::step(e2, plan[2]);
    assert(e2.slots[POLY] == pv);
    assert(e2.slots[FIRST_COEFF][0] == cv[0]);
    assert(e2.slots[COMBINED] == crate::field_device::unknown(len));
    let want = combined_of(poly, challenges, coeffs, 1);
    assert forall|j: int| 0 <= j < len implies e3.slots[COMBINED][j] == want[j] by {
        reveal_with_fuel(crate::combined_ops::combined_value, 2);
    }
    assert(e3.slots[COMBINED] =~= want);
    assert forall|j: nat| j < challenges.len() implies #[trigger] e3.slots[crate::fused_open::iter_slot(j)]
        == crate::commit_laws::intermediate_of(poly, challenges, j) by {
        assert(e3.slots[crate::fused_open::iter_slot(j)]
            == d.slots[crate::fused_open::iter_slot(j)]);
    }
}

proof fn terms_run<F: PrimeField, B>(
    d: FieldDevice,
    poly: Seq<F>,
    challenges: Seq<F>,
    coeffs: Seq<F>,
    k: nat,
)
    requires
        k <= challenges.len() <= 64,
        coeffs.len() >= 1 + k,
        poly.len() <= u32::MAX,
        holds_all(d, poly, challenges),
        d.slots[COMBINED] == combined_of(poly, challenges, coeffs, 1),
    ensures
        ({
            let e = crate::field_device::run(
                d,
                crate::fused_open::terms_plan::<F, B>(coeffs, poly.len(), k),
            );
            &&& holds_all(e, poly, challenges)
            &&& e.slots[COMBINED] == combined_of(poly, challenges, coeffs, k + 1)
            &&& e.outputs == d.outputs
        }),
    decreases k,
{
    if k > 0 {
        let i = (k - 1) as nat;
        let len = poly.len();
        let pv = crate::reference::values(poly);
        let chv = crate::reference::values(challenges);
        let cv = crate::reference::values(coeffs);
        let q = F::order() as int;
        coeffs[0].in_range();
        terms_run::<F, B>(d, poly, challenges, coeffs, i);
        let before = crate::fused_open::terms_plan::<F, B>(coeffs, len, i);
        let term = crate::fused_open::term_plan::<F, B>(coeffs[k as int], len, i);
        crate::field_device::run_concat(d, before, term);
        let e0 = crate::field_device::run(d, before);
        crate::field_device::run_three(e0, term);
        let e1 = crate::field_device::step(e0, term[0]);
        let e2 = crate::field_device::step(e1, term[1]);
        let e3 = crate::field_device::step(e2, term[2]);
        let n = crate::poly_ops::halved(len, k);
        crate::field_device::groups_suffice(len, FIELD_WORK_SIZE);
        crate::field_device::halved_at_most(len, k);
        crate::field_device::fixed_in_turn_len(pv, chv, k, q);
        let ints = intermediates_of(poly, challenges);
        let more = crate::commit_laws::intermediate_of(poly, challenges, i);
        assert(ints[k - 1] == more);
        assert(e1.slots[crate::fused_open::iter_slot(i)]
            == e0.slots[crate::fused_open::iter_slot(i)]);
        assert(e1.slots[crate::fused_open::iter_slot(i)] == more);
        assert(e1.slots[COEFF][0] == cv[k as int]);
        let old = combined_of(poly, challenges, coeffs, k);
        let want = combined_of(poly, challenges, coeffs, k + 1);
        assert(e1.slots[COMBINED] == old);
        assert forall|j: int| 0 <= j < len implies e2.slots[COMBINED][j] == want[j] by {
            let a = crate::combined_ops::combined_value(pv, ints, cv, j, k);
            let x = crate::combined_ops::contribution(pv, ints, cv, j, k as int);
            vstd::arithmetic::div_mod::lemma_add_mod_noop(a, x, q);
            vstd::arithmetic::div_mod::lemma_add_mod_noop(a % q, x, q);
            vstd::arithmetic::div_mod::lemma_mod_twice(a, q);
        }
        assert(e2.slots[COMBINED] =~= want);
        assert forall|j: nat| j < challenges.len() implies #[trigger] e3.slots[crate::fused_open::iter_slot(j)]
            == crate::commit_laws::intermediate_of(poly, challenges, j) by {
            assert(e3.slots[crate::fused_open::iter_slot(j)]
                == e0.slots[crate::fused_open::iter_slot(j)]);
        }
    }
}

proof fn frees_run<F: PrimeField, B>(d: FieldDevice, k: nat)
    requires
        k <= 64,
    ensures
        ({
            let e = crate::field_device::run(d, crate::fused_open::iter_frees_plan::<F, B>(k));
            &&& e.outputs == d.outputs
            &&& forall|o: usize| o < 32 ==> #[trigger] e.slots[o] == d.slots[o]
        }),
    decreases k,
{
    if k > 0 {
        let plan = crate::fused_open::iter_frees_plan::<F, B>(k);
        let j = (k - 1) as nat;
        frees_run::<F, B>(d, j);
        assert(plan.drop_last() =~= crate::fused_open::iter_frees_plan::<F, B>(j));
        assert(plan.last() == plan[k - 1]);
    }
}

/// The buffers of the witness passes are there, and the polynomial that they work on.
spec fn witness_buffers(d: FieldDevice, f: Seq<int>, shape: WitnessShape) -> bool {
    &&& d.slots[COMBINED] == f
    &&& d.slots[WITNESS].len() == shape.witness_len()
    &&& d.slots[CARRIES].len() == shape.num_chunks
    &&& d.slots[PROPAGATED].len() == shape.num_chunks
    &&& d.slots[WITNESS_SCALARS].len() == shape.witness_len()
}

/// The beginning of the work on a point makes its witness polynomial and puts it in the place of the
/// scalars.
proof fn point_begins<F: PrimeField, B>(
    d: FieldDevice,
    f: Seq<int>,
    point: F,
    shape: WitnessShape,
    i: nat,
)
    requires
        shape.wf(),
        shape.num_points == 1,
        shape.poly_len == f.len(),
        f.len() <= u32::MAX,
        witness_buffers(d, f, shape),
    ensures
        ({
            let e = crate::field_device::run(
                d,
                crate::fused_open::point_plan::<F, B>(point, shape, i).take(5),
            );
            &&& witness_buffers(e, f, shape)
            &&& e.slots[WITNESS_SCALARS] == crate::field_device::witness(
                f,
                point.value() as int,
                F::order() as int,
            )
        }),
{
    point.in_range();
    let q = F::order() as int;
    let n = shape.witness_len();
    let t = crate::fused_open::open_slots();
    let plan = crate::fused_open::point_plan::<F, B>(point, shape, i).take(5);
    crate::field_device::run_five(d, plan);
    let e1 = crate::field_device::step(d, plan[0]);
    let us = crate::reference::values(seq![point]);
    assert(e1.slots[t.points] == us);
    assert(1 * shape.num_chunks == shape.num_chunks && 1 * (shape.poly_len - 1) == n);
    crate::field_device::three_passes_on_device::<F, B>(e1, t, shape, f, us);
    let e4 = crate::field_device::step(
        crate::field_device::step(crate::field_device::step(e1, plan[1]), plan[2]),
        plan[3],
    );
    let rows = |k: int| crate::field_device::witness(f, us[k], q);
    crate::field_device::flat_row(rows, 1, n, 0);
    let new = crate::field_device::flat(rows, 1, n);
    assert(us[0] == point.value());
    assert(new =~= crate::field_device::row_of(new, 0, n));
    assert(e4.slots[WITNESS] == new);
    assert(e4.slots[COMBINED] == f);
    assert(e4.slots[WITNESS_SCALARS] == e1.slots[WITNESS_SCALARS]);
    crate::field_device::groups_suffice(n, FIELD_WORK_SIZE);
    let e5 = crate::field_device::step(e4, plan[4]);
    assert(new.take(n as int) =~= new);
    assert(e5.slots[WITNESS_SCALARS] =~= new);
    witness_carries_len::<F, B>(e1, t, shape);
}

/// The passes do not change the lengths of the buffers of carries.
proof fn witness_carries_len<F: PrimeField, B>(
    d: FieldDevice,
    t: crate::witness::WitnessSlots,
    s: WitnessShape,
)
    requires
        t == crate::fused_open::open_slots(),
        s.wf(),
        s.num_points == 1,
        s.poly_len <= u32::MAX,
        d.slots[t.carries].len() == s.num_chunks,
        d.slots[t.propagated].len() == s.num_chunks,
    ensures
        ({
            let e = crate::field_device::step(
                crate::field_device::step(
                    crate::field_device::step(d, crate::witness::phase1::<F, B>(t, s)),
                    crate::witness::phase2::<F, B>(t, s),
                ),
                crate::witness::phase3::<F, B>(t, s),
            );
            &&& e.slots[t.carries].len() == s.num_chunks
            &&& e.slots[t.propagated].len() == s.num_chunks
        }),
{
    let c1 = crate::witness::phase1::<F, B>(t, s);
    let c2 = crate::witness::phase2::<F, B>(t, s);
    crate::witness::chunks_cover_witness(s);
    assert(s.chunk_size <= s.poly_len);
    assert(crate::field_device::shape_arg(c1->Launch_args, 4, 5, 6, 7) == s);
    assert(crate::field_device::shape_arg(c2->Launch_args, 6, 4, 5, 3) == s);
    assert(1 * s.num_chunks == s.num_chunks);
}

proof fn points_run<F: PrimeField, B>(
    d: FieldDevice,
    f: Seq<int>,
    points: Seq<F>,
    shape: WitnessShape,
    m: nat,
)
    requires
        m <= points.len(),
        shape.wf(),
        shape.num_points == 1,
        shape.poly_len == f.len(),
        f.len() <= u32::MAX,
        witness_buffers(d, f, shape),
    ensures
        witness_buffers(
            crate::field_device::run(
                d,
                crate::fused_open::points_plan::<F, B>(points, shape, m),
            ),
            f,
            shape,
        ),
    decreases m,
{
    if m > 0 {
        let i = (m - 1) as nat;
        let n = shape.witness_len();
        points_run::<F, B>(d, f, points, shape, i);
        let before = crate::fused_open::points_plan::<F, B>(points, shape, i);
        let point = crate::fused_open::point_plan::<F, B>(points[m - 1], shape, i);
        crate::field_device::run_concat(d, before, point);
        let d1 = crate::field_device::run(d, before);
        let head = point.take(5);
        let msm = point.subrange(5, point.len() - 1);
        let last = point.skip(point.len() - 1);
        assert(point =~= head + msm + last);
        crate::field_device::run_concat(d1, head, msm);
        crate::field_device::run_concat(d1, head + msm, last);
        point_begins::<F, B>(d1, f, points[m - 1], shape, i);
        let d2 = crate::field_device::run(d1, head);
        let inner = crate::fused_open::msm_plan::<F, B>(
            WITNESS_SCALARS,
            crate::fused_open::open_params(n),
        );
        assert(crate::field_device::all_msm(inner));
        assert forall|j: int| 0 <= j < msm.len() implies crate::field_device::is_msm(
            #[trigger] msm[j],
        ) by {
            if j < inner.len() {
                assert(msm[j] == inner[j]);
            }
        }
        let d3 = crate::field_device::run(d2, msm);
        crate::field_device::msm_leaves_fields(d2, msm, COMBINED);
        crate::field_device::msm_leaves_fields(d2, msm, WITNESS);
        crate::field_device::msm_leaves_fields(d2, msm, CARRIES);
        crate::field_device::msm_leaves_fields(d2, msm, PROPAGATED);
        crate::field_device::msm_leaves_fields(d2, msm, WITNESS_SCALARS);
        crate::field_device::run_push(d3, Seq::<Cmd<F, B>>::empty(), last[0]);
        assert(last =~= Seq::empty().push(last[0]));
    }
}

/// The session of [`crate::fused_commit::FusedPolyCommit::fused_open`] and
/// [`crate::fused_open::FusedOpen::resume`] up to the MSM of point `m`.
pub open spec fn open_point_log<F, B>(
    poly: Seq<F>,
    challenges: Seq<F>,
    bases: Seq<B>,
    s: MsmSizes,
    coeffs: Seq<F>,
    points: Seq<F>,
    shape: WitnessShape,
    m: nat,
) -> Seq<Cmd<F, B>> {
    let len = poly.len();
    let k = challenges.len();
    crate::fused_open::phase2_plan(poly, challenges, bases, s)
        + crate::fused_open::first_term_plan(coeffs[0], len) + crate::fused_open::terms_plan(
        coeffs,
        len,
        k,
    ) + crate::fused_open::iter_frees_plan(k) + crate::fused_open::witness_buffers_plan(
        shape,
        points.len(),
    ) + crate::fused_open::points_plan(points, shape, m) + crate::fused_open::point_plan(
        points[m as int],
        shape,
        m,
    ).take(5)
}

proof fn point_log_run<F: PrimeField, B>(
    poly: Seq<F>,
    challenges: Seq<F>,
    bases: Seq<B>,
    s: MsmSizes,
    coeffs: Seq<F>,
    points: Seq<F>,
    shape: WitnessShape,
    m: nat,
)
    requires
        challenges.len() <= 64,
        coeffs.len() >= 1 + challenges.len(),
        poly.len() <= u32::MAX,
        shape.wf(),
        shape.num_points == 1,
        shape.poly_len == poly.len(),
        m < points.len(),
    ensures
        crate::field_device::run(
            crate::field_device::idle(),
            open_point_log(poly, challenges, bases, s, coeffs, points, shape, m),
        ).slots[WITNESS_SCALARS] == crate::field_device::witness(
            combined_of(poly, challenges, coeffs, challenges.len() + 1),
            points[m as int].value() as int,
            F::order() as int,
        ),
{
    let idle = crate::field_device::idle();
    let len = poly.len();
    let k = challenges.len();
    let f = combined_of(poly, challenges, coeffs, k + 1);
    let a = crate::fused_open::phase2_plan(poly, challenges, bases, s);
    let b = crate::fused_open::first_term_plan::<F, B>(coeffs[0], len);
    let c = crate::fused_open::terms_plan::<F, B>(coeffs, len, k);
    let e = crate::fused_open::iter_frees_plan::<F, B>(k);
    let g = crate::fused_open::witness_buffers_plan::<F, B>(shape, points.len());
    let h = crate::fused_open::points_plan::<F, B>(points, shape, m);
    let last = crate::fused_open::point_plan::<F, B>(points[m as int], shape, m).take(5);
    crate::field_device::run_concat(idle, a, b);
    crate::field_device::run_concat(idle, a + b, c);
    crate::field_device::run_concat(idle, a + b + c, e);
    crate::field_device::run_concat(idle, a + b + c + e, g);
    crate::field_device::run_concat(idle, a + b + c + e + g, h);
    crate::field_device::run_concat(idle, a + b + c + e + g + h, last);
    phase2_run::<F, B>(poly, challenges, bases, s);
    let d1 = crate::field_device::run(idle, a);
    first_term_run::<F, B>(d1, poly, challenges, coeffs);
    let d2 = crate::field_device::run(d1, b);
    terms_run::<F, B>(d2, poly, challenges, coeffs, k);
    let d3 = crate::field_device::run(d2, c);
    frees_run::<F, B>(d3, k);
    let d4 = crate::field_device::run(d3, e);
    crate::field_device::run_five(d4, g);
    let d5 = crate::field_device::run(d4, g);
    assert(d5.slots[COMBINED] == d4.slots[COMBINED]);
    assert(witness_buffers(d5, f, shape));
    points_run::<F, B>(d5, f, points, shape, m);
    let d6 = crate::field_device::run(d5, h);
    point_begins::<F, B>(d6, f, points[m as int], shape, m);
}

proof fn rounds_prefix<F, B>(len: nat, i: nat, k: nat)
    requires
        i <= k,
    ensures
        crate::fused_open::open_rounds_plan::<F, B>(len, i).is_prefix_of(
            crate::fused_open::open_rounds_plan::<F, B>(len, k),
        ),
    decreases k,
{
    if i < k {
        rounds_prefix::<F, B>(len, i, (k - 1) as nat);
    }
}

proof fn points_prefix<F, B>(points: Seq<F>, shape: WitnessShape, i: nat, k: nat)
    requires
        i <= k,
    ensures
        crate::fused_open::points_plan::<F, B>(points, shape, i).is_prefix_of(
            crate::fused_open::points_plan::<F, B>(points, shape, k),
        ),
    decreases k,
{
    if i < k {
        points_prefix::<F, B>(points, shape, i, (k - 1) as nat);
    }
}

/// The MSM of round `i` works on the intermediate polynomial of that round.
pub proof fn open_scalars<F: PrimeField, B>(
    poly: Seq<F>,
    challenges: Seq<F>,
    bases: Seq<B>,
    s: MsmSizes,
    i: nat,
)
    requires
        i < challenges.len() <= 64,
        poly.len() / 2 <= u32::MAX,
    ensures
        ({
            let n = crate::poly_ops::halved(poly.len(), i + 1);
            let scalars = crate::commit_laws::scalars_of(
                open_log(poly, challenges, bases, s, i),
            );
            &&& scalars.len() >= n
            &&& scalars.take(n as int) == crate::commit_laws::intermediate_of(poly, challenges, i)
        }),
{
    let idle = crate::field_device::idle();
    let before = before_rounds(poly, challenges, bases, s);
    let rounds = crate::fused_open::open_rounds_plan::<F, B>(poly.len(), i);
    let head = crate::fused_open::open_round_plan::<F, B>(poly.len(), i).take(2);
    crate::field_device::run_concat(idle, before, rounds);
    crate::field_device::run_concat(idle, before + rounds, head);
    ready_before_rounds::<F, B>(poly, challenges, bases, s);
    let d1 = crate::field_device::run(idle, before);
    rounds_run::<F, B>(d1, poly, challenges, i);
    round_begins::<F, B>(crate::field_device::run(d1, rounds), poly, challenges, i);
    crate::field_device::halved_at_most(poly.len(), i + 1);
}

/// The MSM of point `m` works on the witness polynomial for that point of the linear combination.
pub proof fn open_point_scalars<F: PrimeField, B>(
    poly: Seq<F>,
    challenges: Seq<F>,
    bases: Seq<B>,
    s: MsmSizes,
    coeffs: Seq<F>,
    points: Seq<F>,
    shape: WitnessShape,
    m: nat,
)
    requires
        challenges.len() <= 64,
        coeffs.len() >= 1 + challenges.len(),
        poly.len() <= u32::MAX,
        shape.wf(),
        shape.num_points == 1,
        shape.poly_len == poly.len(),
        m < points.len(),
    ensures
        crate::field_device::run(
            crate::field_device::idle(),
            open_point_log(poly, challenges, bases, s, coeffs, points, shape, m),
        ).slots[WITNESS_SCALARS] == crate::field_device::witness(
            combined_of(poly, challenges, coeffs, challenges.len() + 1),
            points[m as int].value() as int,
            F::order() as int,
        ),
{
    point_log_run::<F, B>(poly, challenges, bases, s, coeffs, points, shape, m);
}

/// The commands up to the MSM of round `i` start the plan.
#[verifier::spinoff_prover]
proof fn open_log_in_plan<F: PrimeField, B>(
    poly: Seq<F>,
    challenges: Seq<F>,
    bases: Seq<B>,
    s: MsmSizes,
    i: nat,
)
    requires
        i < challenges.len(),
    ensures
        open_log(poly, challenges, bases, s, i).is_prefix_of(
            crate::fused_open::phase2_plan(poly, challenges, bases, s),
        ),
{
    let len = poly.len();
    let k = challenges.len();
    let before = before_rounds(poly, challenges, bases, s);
    let rounds = crate::fused_open::open_rounds_plan::<F, B>(len, i);
    let head = crate::fused_open::open_round_plan::<F, B>(len, i).take(2);
    rounds_prefix::<F, B>(len, i + 1, k);
    let whole = crate::fused_open::open_rounds_plan::<F, B>(len, k);
    let tail = crate::fused_open::iter_reads_plan::<F, B>(len, k) + seq![
        Cmd::Read { slot: COMMITMENTS, elem: Elem::Point, len: k },
        Cmd::Free { slot: CHALLENGES },
    ];
    let plan = crate::fused_open::phase2_plan(poly, challenges, bases, s);
    assert(plan =~= before + whole + tail);
    assert((rounds + head).is_prefix_of(
        crate::fused_open::open_rounds_plan::<F, B>(len, i + 1),
    ));
    assert((rounds + head).is_prefix_of(whole)) by {
        let next = crate::fused_open::open_rounds_plan::<F, B>(len, i + 1);
        assert(next =~= whole.take(next.len() as int));
        assert(rounds + head =~= whole.take((rounds + head).len() as int));
    }
    let log = open_log(poly, challenges, bases, s, i);
    assert(log =~= before + (rounds + head));
    assert(log =~= plan.take(log.len() as int));
}

/// The first part of the fused open operation fixes variables and commits to the intermediate
/// polynomials: it hands out the same intermediate polynomials as the session that fixes variables
/// alone, and the MSM of round `i` works on the `i`th of them, so that its commitment is the sum of
/// the multiples of the bases by its elements.
///
/// `run` is what the MSM of round `i` leaves on the device, as in
/// [`crate::sorted_sum::unwatched_msm_is_sum_of_multiples`]. The lengths that kernels are told are 32
/// bit words, so that the law needs lengths that fit.
#[verifier::spinoff_prover]
#[verifier::rlimit(30)]
pub proof fn open_commits_to_intermediates<G: Group, F: PrimeField, B>(
    c: Set<G::Point>,
    act: spec_fn(int, G::Point) -> G::Point,
    base_points: Seq<G::Point>,
    poly: Seq<F>,
    challenges: Seq<F>,
    bases: Seq<B>,
    s: MsmSizes,
    i: nat,
    run: SortedRun<G::Point>,
)
    requires
        crate::group::abelian::<G>(c),
        crate::single_multiexp::integer_action::<G>(c, act),
        crate::group::all_in(c, base_points),
        poly.len() <= usize::MAX,
        poly.len() / 2 <= u32::MAX,
        challenges.len() <= crate::arith::log2(poly.len()),
        i < challenges.len(),
        base_points.len() == crate::poly_ops::halved(poly.len(), i + 1),
        F::order() <= vstd::arithmetic::power2::pow2(BN254_SCALAR_BITS as nat),
        crate::fused_open::open_params(crate::poly_ops::halved(poly.len(), i + 1)).fits(),
        crate::sorted_sum::ran_unwatched::<G>(
            run,
            act,
            base_points,
            crate::commit_laws::naturals(
                crate::commit_laws::scalars_of(
                    open_log(poly, challenges, bases, s, i),
                ).take(base_points.len() as int),
            ),
            crate::fused_open::open_params(crate::poly_ops::halved(poly.len(), i + 1)),
        ),
    ensures
        open_log(poly, challenges, bases, s, i).is_prefix_of(
            crate::fused_open::phase2_plan(poly, challenges, bases, s),
        ),
        crate::field_device::outputs(
            crate::fused_open::phase2_plan(poly, challenges, bases, s),
        ) == crate::field_device::outputs(crate::poly_ops::fix_vars_plan(poly, challenges)),
        run.result == crate::sorted_sum::multiples::<G>(
            act,
            base_points,
            crate::commit_laws::naturals(
                crate::field_device::outputs(
                    crate::poly_ops::fix_vars_plan(poly, challenges),
                )[i as int],
            ),
        ),
{
    let len = poly.len();
    let n = crate::poly_ops::halved(len, i + 1);
    let p = crate::fused_open::open_params(n);
    crate::fused_commit::log_is_small(len as usize);
    crate::field_device::halved_at_most(len, i + 1);
    challenges[0].in_range();
    open_scalars::<F, B>(poly, challenges, bases, s, i);
    // The outputs.
    phase2_run::<F, B>(poly, challenges, bases, s);
    crate::field_device::fix_vars_outputs(poly, challenges);
    let all = crate::field_device::outputs(crate::poly_ops::fix_vars_plan(poly, challenges));
    assert(all =~= intermediates_of(poly, challenges));
    open_log_in_plan::<F, B>(poly, challenges, bases, s, i);
    // The commitment.
    let scalars = crate::commit_laws::naturals(all[i as int]);
    crate::field_device::fixed_in_turn_len(
        crate::reference::values(poly),
        crate::reference::values(challenges),
        i + 1,
        F::order() as int,
    );
    crate::commit_laws::intermediates_in_range(poly, challenges, i);
    crate::sorted_sum::unwatched_msm_is_sum_of_multiples::<G>(
        c,
        act,
        base_points,
        scalars,
        p,
        run,
    );
}

/// The second part of the fused open operation commits to witness polynomials: the MSM of point `m`
/// works on the witness polynomial for that point of the linear combination of the polynomial and
/// its intermediate polynomials, so that its commitment is the sum of the multiples of the bases by
/// its elements.
///
/// `run` is what the MSM of point `m` leaves on the device, as in
/// [`crate::sorted_sum::unwatched_msm_is_sum_of_multiples`]. The lengths that kernels are told are 32
/// bit words, so that the law needs lengths that fit.
pub proof fn open_commits_to_witnesses<G: Group, F: PrimeField, B>(
    c: Set<G::Point>,
    act: spec_fn(int, G::Point) -> G::Point,
    base_points: Seq<G::Point>,
    poly: Seq<F>,
    challenges: Seq<F>,
    bases: Seq<B>,
    s: MsmSizes,
    coeffs: Seq<F>,
    points: Seq<F>,
    shape: WitnessShape,
    m: nat,
    run: SortedRun<G::Point>,
)
    requires
        crate::group::abelian::<G>(c),
        crate::single_multiexp::integer_action::<G>(c, act),
        crate::group::all_in(c, base_points),
        poly.len() >= 2,
        poly.len() <= u32::MAX,
        challenges.len() <= crate::arith::log2(poly.len()),
        coeffs.len() >= 1 + challenges.len(),
        shape.wf(),
        shape.num_points == 1,
        shape.poly_len == poly.len(),
        m < points.len(),
        base_points.len() == poly.len() - 1,
        F::order() <= vstd::arithmetic::power2::pow2(BN254_SCALAR_BITS as nat),
        crate::fused_open::open_params((poly.len() - 1) as nat).fits(),
        crate::sorted_sum::ran_unwatched::<G>(
            run,
            act,
            base_points,
            crate::commit_laws::naturals(
                crate::field_device::run(
                    crate::field_device::idle(),
                    open_point_log(poly, challenges, bases, s, coeffs, points, shape, m),
                ).slots[WITNESS_SCALARS],
            ),
            crate::fused_open::open_params((poly.len() - 1) as nat),
        ),
    ensures
        open_point_log(poly, challenges, bases, s, coeffs, points, shape, m).is_prefix_of(
            crate::fused_open::phase2_plan(poly, challenges, bases, s)
                + crate::fused_open::phase3_plan(coeffs, points, shape, challenges.len()),
        ),
        run.result == crate::sorted_sum::multiples::<G>(
            act,
            base_points,
            crate::commit_laws::naturals(
                crate::field_device::witness(
                    combined_of(poly, challenges, coeffs, challenges.len() + 1),
                    points[m as int].value() as int,
                    F::order() as int,
                ),
            ),
        ),
{
    let len = poly.len();
    let k = challenges.len();
    let q = F::order() as int;
    let p = crate::fused_open::open_params((len - 1) as nat);
    crate::fused_commit::log_is_small(len as usize);
    points[0].in_range();
    point_log_run::<F, B>(poly, challenges, bases, s, coeffs, points, shape, m);
    open_point_prefix::<F, B>(poly, challenges, bases, s, coeffs, points, shape, m);
    let f = combined_of(poly, challenges, coeffs, k + 1);
    let u = points[m as int].value() as int;
    let w = crate::field_device::witness(f, u, q);
    let scalars = crate::commit_laws::naturals(w);
    assert forall|j: int| 0 <= j < scalars.len() implies #[trigger] scalars[j]
        < vstd::arithmetic::power2::pow2(p.effective_bits as nat) by {
        vstd::arithmetic::div_mod::lemma_mod_bound(crate::reference::quotient(f, u)[j], q);
    }
    crate::sorted_sum::unwatched_msm_is_sum_of_multiples::<G>(
        c,
        act,
        base_points,
        scalars,
        p,
        run,
    );
}

proof fn open_point_prefix<F, B>(
    poly: Seq<F>,
    challenges: Seq<F>,
    bases: Seq<B>,
    s: MsmSizes,
    coeffs: Seq<F>,
    points: Seq<F>,
    shape: WitnessShape,
    m: nat,
)
    requires
        m < points.len(),
        shape.poly_len == poly.len(),
    ensures
        open_point_log(poly, challenges, bases, s, coeffs, points, shape, m).is_prefix_of(
            crate::fused_open::phase2_plan(poly, challenges, bases, s)
                + crate::fused_open::phase3_plan(coeffs, points, shape, challenges.len()),
        ),
{
    let len = poly.len();
    let k = challenges.len();
    let phase2 = crate::fused_open::phase2_plan(poly, challenges, bases, s);
    let terms = crate::fused_open::first_term_plan::<F, B>(coeffs[0], len)
        + crate::fused_open::terms_plan(coeffs, len, k) + crate::fused_open::iter_frees_plan(k)
        + crate::fused_open::witness_buffers_plan(shape, points.len());
    let done = crate::fused_open::points_plan::<F, B>(points, shape, m);
    let head = crate::fused_open::point_plan::<F, B>(points[m as int], shape, m).take(5);
    let next = crate::fused_open::points_plan::<F, B>(points, shape, m + 1);
    let whole = crate::fused_open::points_plan::<F, B>(points, shape, points.len());
    points_prefix::<F, B>(points, shape, m + 1, points.len());
    assert(next =~= whole.take(next.len() as int));
    assert((done + head) =~= next.take((done + head).len() as int));
    assert((done + head) =~= whole.take((done + head).len() as int));
    let log = open_point_log(poly, challenges, bases, s, coeffs, points, shape, m);
    assert(log =~= phase2 + (terms + (done + head)));
    let plan = crate::fused_open::phase3_plan::<F, B>(coeffs, points, shape, k);
    let last = plan.skip((terms + whole).len() as int);
    assert(plan =~= terms + whole + last);
    assert(log =~= (phase2 + plan).take(log.len() as int));
}

} // verus!
