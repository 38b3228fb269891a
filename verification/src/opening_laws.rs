//! Which commitments the fused open operation hands out.
//!
//! The laws speak of every run of a session on a device whose kernels do what they are for, as
//! [`crate::field_device`] and [`crate::msm_device`] say it.

use vstd::prelude::*;

use crate::field::PrimeField;
use crate::fused_msm::{MsmSizes, BN254_SCALAR_BITS};
use crate::fused_open::{
    CHALLENGES, COMMITMENTS, POINT, WITNESS_COMMITMENTS, WITNESS_SCALARS,
};
use crate::group::Group;
use crate::msm_device::MsmDevice;
use crate::session::{Cmd, DataView, Elem};
use crate::sorted_msm::{BASES, FIRST_FREE, SCALARS};
use crate::witness::WitnessShape;

verus! {

/// Whether a slot is one that field elements have for themselves.
pub open spec fn apart(slot: usize) -> bool {
    slot >= FIRST_FREE || slot == SCALARS
}

/// Whether a command works on field elements alone, and does not touch slot `o`.
pub open spec fn on_fields<F, B>(c: Cmd<F, B>, o: usize) -> bool {
    match c {
        Cmd::Alloc { slot, .. } => apart(slot) && slot != o,
        Cmd::Upload { slot, .. } => apart(slot) && slot != o,
        Cmd::Write { data, .. } => data is Scalars,
        Cmd::Launch { kernel, .. } => !crate::field_device::msm_kernel(kernel) && !(kernel
            is MultiexpSigned) && !(kernel is BatchScalarMul),
        Cmd::Read { elem, .. } => elem == Elem::Scalar,
        Cmd::Free { slot } => apart(slot) && slot != o,
    }
}

/// Commands that work on field elements alone leave the buffers of the MSMs alone.
pub proof fn fields_run<G: Group, F: PrimeField, B>(
    of: spec_fn(B) -> G::Point,
    act: spec_fn(int, G::Point) -> G::Point,
    log: Seq<Cmd<F, B>>,
    states: Seq<MsmDevice<G::Point>>,
    bases: Seq<G::Point>,
    s: MsmSizes,
    o: usize,
)
    requires
        crate::msm_device::runs::<G, F, B>(of, act, log, states),
        forall|i: int| 0 <= i < log.len() ==> on_fields(#[trigger] log[i], o),
        crate::commitment_laws::between_rounds(states[0], bases, s),
    ensures
        crate::commitment_laws::between_rounds(states.last(), bases, s),
        states.last().points[o] == states[0].points[o],
        states.last().words_out == states[0].words_out,
        states.last().points_out == states[0].points_out,
    decreases log.len(),
{
    if log.len() > 0 {
        let n = log.len() as int;
        let before = log.drop_last();
        assert(log =~= before + seq![log.last()]);
        crate::msm_device::runs_in_two::<G, F, B>(of, act, before, seq![log.last()], states);
        assert forall|i: int| 0 <= i < before.len() implies on_fields(#[trigger] before[i], o) by {
            assert(before[i] == log[i]);
        }
        fields_run::<G, F, B>(of, act, before, states.take(n), bases, s, o);
        assert(on_fields(log[n - 1], o));
        let d = states[n - 1];
        let e = states[n];
        assert(crate::msm_device::stepped::<G, F, B>(of, act, d, log[n - 1], e));
        field_step::<G, F, B>(of, act, d, log[n - 1], e, bases, s, o);
    }
}

#[verifier::spinoff_prover]
proof fn field_step<G: Group, F: PrimeField, B>(
    of: spec_fn(B) -> G::Point,
    act: spec_fn(int, G::Point) -> G::Point,
    d: MsmDevice<G::Point>,
    c: Cmd<F, B>,
    e: MsmDevice<G::Point>,
    bases: Seq<G::Point>,
    s: MsmSizes,
    o: usize,
)
    requires
        crate::msm_device::stepped::<G, F, B>(of, act, d, c, e),
        on_fields(c, o),
        crate::commitment_laws::between_rounds(d, bases, s),
    ensures
        crate::commitment_laws::between_rounds(e, bases, s),
        e.points[o] == d.points[o],
        e.words_out == d.words_out,
        e.points_out == d.points_out,
{
    match c {
        Cmd::Launch { kernel, global, local, args } => {
            assert(crate::msm_device::kept(d, e));
        },
        _ => {},
    }
}

/// The uploads and the buffers that the MSMs share.
#[verifier::spinoff_prover]
proof fn shared_makes_room<G: Group, F: PrimeField, B>(
    of: spec_fn(B) -> G::Point,
    act: spec_fn(int, G::Point) -> G::Point,
    poly: Seq<F>,
    bases: Seq<B>,
    s: MsmSizes,
    states: Seq<MsmDevice<G::Point>>,
)
    requires
        crate::msm_device::runs::<G, F, B>(
            of,
            act,
            crate::fused_open::shared_plan(poly, bases, s),
            states,
        ),
    ensures
        crate::commitment_laws::between_rounds(states.last(), bases.map_values(of), s),
        states.last().words_out == states[0].words_out,
        states.last().points_out == states[0].points_out,
{
    let log = crate::fused_open::shared_plan::<F, B>(poly, bases, s);
    assert(log.len() == 16);
    assert(log[0] is Upload && log[1] is Upload && log[2] is Alloc && log[3] is Alloc && log[4]
        is Alloc && log[5] is Alloc && log[6] is Alloc && log[7] is Alloc);
    assert(log[8] is Alloc && log[9] is Alloc && log[10] is Alloc && log[11] is Alloc && log[12]
        is Alloc && log[13] is Alloc && log[14] is Alloc && log[15] is Alloc);
    let d = states[8];
    assert(d.points[BASES] == bases.map_values(of));
    assert(d.digits[crate::sorted_msm::DIGITS].len() == s.digits);
    assert(d.words[crate::sorted_msm::KEYS].len() == s.pairs);
    assert(d.words[crate::sorted_msm::VALUES].len() == s.pairs);
    assert(d.words[crate::sorted_msm::SORTED].len() == s.pairs);
    assert(d.words[crate::sorted_msm::COUNTS].len() == s.buckets);
    assert(d.words[crate::sorted_msm::OFFSETS].len() == s.buckets);
}

spec fn open_ok<G: Group, F: PrimeField>(
    c: Set<G::Point>,
    act: spec_fn(int, G::Point) -> G::Point,
    bases: Seq<G::Point>,
    poly: Seq<F>,
    challenges: Seq<F>,
    s: MsmSizes,
) -> bool {
    &&& crate::group::abelian::<G>(c)
    &&& crate::single_multiexp::integer_action::<G>(c, act)
    &&& crate::group::all_in(c, bases)
    &&& bases.len() >= poly.len()
    &&& 2 <= poly.len() <= u32::MAX
    &&& challenges.len() < 64
    &&& F::order() <= vstd::arithmetic::power2::pow2(BN254_SCALAR_BITS as nat)
    &&& s == MsmSizes::of(crate::fused_open::all_params(poly.len(), challenges.len()))
    &&& forall|k: nat|
        1 <= k <= challenges.len() ==> crate::sorted_laws::words_fit(
            #[trigger] crate::fused_open::open_params(crate::poly_ops::halved(poly.len(), k)),
        )
    &&& crate::sorted_laws::words_fit(crate::fused_open::open_params((poly.len() - 1) as nat))
}

proof fn open_covers<G: Group, F: PrimeField>(
    c: Set<G::Point>,
    act: spec_fn(int, G::Point) -> G::Point,
    bases: Seq<G::Point>,
    poly: Seq<F>,
    challenges: Seq<F>,
    s: MsmSizes,
)
    requires
        open_ok::<G, F>(c, act, bases, poly, challenges, s),
    ensures
        forall|k: nat|
            1 <= k <= challenges.len() ==> s.covers(
                #[trigger] crate::fused_open::open_params(crate::poly_ops::halved(poly.len(), k)),
            ),
        s.covers(crate::fused_open::open_params((poly.len() - 1) as nat)),
{
    let len = poly.len();
    let ps = crate::fused_open::all_params(len, challenges.len());
    assert forall|j: int| 0 <= j < ps.len() implies (#[trigger] ps[j]).fits() by {
        if j < challenges.len() {
            assert(crate::sorted_laws::words_fit(
                crate::fused_open::open_params(crate::poly_ops::halved(len, (j + 1) as nat)),
            ));
        }
    }
    crate::fused_msm::sizes_cover_all(ps);
    assert forall|k: nat| 1 <= k <= challenges.len() implies s.covers(
        #[trigger] crate::fused_open::open_params(crate::poly_ops::halved(len, k)),
    ) by {
        assert(ps[k - 1] == crate::fused_open::open_params(crate::poly_ops::halved(len, k)));
    }
    assert(ps[challenges.len() as int] == crate::fused_open::open_params((len - 1) as nat));
}

/// The commitment to intermediate polynomial `i`.
pub open spec fn intermediate_commitment<G: Group, F: PrimeField>(
    act: spec_fn(int, G::Point) -> G::Point,
    bases: Seq<G::Point>,
    poly: Seq<F>,
    challenges: Seq<F>,
    i: nat,
) -> G::Point {
    crate::sorted_sum::multiples::<G>(
        act,
        bases.take(crate::poly_ops::halved(poly.len(), i + 1) as int),
        crate::commit_laws::naturals(crate::commit_laws::intermediate_of(poly, challenges, i)),
    )
}

/// A round: its MSM, and that its result is saved.
#[verifier::spinoff_prover]
proof fn open_round_runs<G: Group, F: PrimeField, B>(
    c: Set<G::Point>,
    of: spec_fn(B) -> G::Point,
    act: spec_fn(int, G::Point) -> G::Point,
    held: Seq<G::Point>,
    poly: Seq<F>,
    challenges: Seq<F>,
    s: MsmSizes,
    i: nat,
    states: Seq<MsmDevice<G::Point>>,
)
    requires
        open_ok::<G, F>(c, act, held, poly, challenges, s),
        i < challenges.len(),
        crate::commitment_laws::between_rounds(states[0], held, s),
        states[0].points[COMMITMENTS].len() == challenges.len(),
        crate::msm_device::runs::<G, F, B>(
            of,
            act,
            crate::fused_open::open_round_plan::<F, B>(poly.len(), i),
            states,
        ),
        ({
            let n = crate::poly_ops::halved(poly.len(), i + 1);
            let scalars = states[2].numbers.slots[SCALARS];
            &&& scalars.len() >= n
            &&& scalars.take(n as int) == crate::commit_laws::intermediate_of(poly, challenges, i)
        }),
    ensures
        crate::commitment_laws::between_rounds(states.last(), held, s),
        states.last().points[COMMITMENTS] == states[0].points[COMMITMENTS].update(
            i as int,
            intermediate_commitment::<G, F>(act, held, poly, challenges, i),
        ),
        states.last().points_out == states[0].points_out,
{
    let n = crate::poly_ops::halved(poly.len(), i + 1);
    let p = crate::fused_open::open_params(n);
    let plan = crate::fused_open::open_round_plan::<F, B>(poly.len(), i);
    let head = plan.take(2);
    let msm = crate::fused_open::msm_plan::<F, B>(SCALARS, p);
    let save: Seq<Cmd<F, B>> = seq![crate::fused_open::save_plan(COMMITMENTS, i)];
    assert(plan =~= head + (msm + save));
    crate::msm_device::runs_in_two::<G, F, B>(of, act, head, msm + save, states);
    let s1 = states.take(3);
    let t1 = states.skip(2);
    assert(head[0] is Launch && head[1] is Launch);
    assert(on_fields(head[0], COMMITMENTS) && on_fields(head[1], COMMITMENTS));
    fields_run::<G, F, B>(of, act, head, s1, held, s, COMMITMENTS);
    assert(s1[2].standard.contains(SCALARS));
    crate::msm_device::runs_in_two::<G, F, B>(of, act, msm, save, t1);
    let s2 = t1.take(msm.len() as int + 1);
    let t2 = t1.skip(msm.len() as int);
    let numbers = crate::commit_laws::intermediate_of(poly, challenges, i);
    let scalars = crate::commit_laws::naturals(numbers);
    open_covers::<G, F>(c, act, held, poly, challenges, s);
    assert(crate::sorted_laws::words_fit(
        crate::fused_open::open_params(crate::poly_ops::halved(poly.len(), i + 1)),
    ));
    crate::field_device::halved_at_most(poly.len(), i + 1);
    crate::field_device::fixed_in_turn_len(
        crate::reference::values(poly),
        crate::reference::values(challenges),
        i + 1,
        F::order() as int,
    );
    crate::commit_laws::intermediates_in_range(poly, challenges, i);
    let d = s2[0];
    assert(p.n_bases == n);
    assert forall|j: int| 0 <= j < scalars.len() implies #[trigger] d.numbers.slots[SCALARS][j]
        == scalars[j] by {
        assert(d.numbers.slots[SCALARS].take(n as int)[j] == numbers[j]);
        assert(numbers[j] >= 0);
    }
    crate::fused_laws::unwatched_msm_gives_sum_of_multiples::<G, F, B>(
        c,
        of,
        act,
        SCALARS,
        held,
        scalars,
        p,
        s,
        s2,
    );
    let e = s2.last();
    assert(e.points[COMMITMENTS] == d.points[COMMITMENTS]);
    assert(e.points[BASES] == d.points[BASES]);
    assert(save[0] is Launch);
    assert(crate::msm_device::wrote_points(t2[0], t2[1], COMMITMENTS));
}

proof fn iters_on_fields<F, B>(len: nat, k: nat)
    requires
        k < 64,
    ensures
        forall|j: int|
            0 <= j < k ==> on_fields(
                #[trigger] crate::fused_open::iter_buffers_plan::<F, B>(len, k)[j],
                COMMITMENTS,
            ),
        forall|j: int|
            0 <= j < k ==> on_fields(
                #[trigger] crate::fused_open::iter_reads_plan::<F, B>(len, k)[j],
                COMMITMENTS,
            ),
        forall|j: int|
            0 <= j < k ==> on_fields(
                #[trigger] crate::fused_open::iter_frees_plan::<F, B>(k)[j],
                COMMITMENTS,
            ),
{
    assert forall|j: int| 0 <= j < k implies on_fields(
        #[trigger] crate::fused_open::iter_buffers_plan::<F, B>(len, k)[j],
        COMMITMENTS,
    ) by {
        assert(crate::fused_open::iter_slot(j as nat) >= 32);
    }
    assert forall|j: int| 0 <= j < k implies on_fields(
        #[trigger] crate::fused_open::iter_frees_plan::<F, B>(k)[j],
        COMMITMENTS,
    ) by {
        assert(crate::fused_open::iter_slot(j as nat) >= 32);
    }
}

/// What comes before the rounds.
#[verifier::spinoff_prover]
proof fn before_rounds_run<G: Group, F: PrimeField, B>(
    of: spec_fn(B) -> G::Point,
    act: spec_fn(int, G::Point) -> G::Point,
    bases: Seq<B>,
    poly: Seq<F>,
    challenges: Seq<F>,
    s: MsmSizes,
    states: Seq<MsmDevice<G::Point>>,
)
    requires
        challenges.len() < 64,
        crate::msm_device::runs::<G, F, B>(
            of,
            act,
            crate::open_laws::before_rounds(poly, challenges, bases, s),
            states,
        ),
    ensures
        crate::commitment_laws::between_rounds(states.last(), bases.map_values(of), s),
        states.last().points[COMMITMENTS].len() == challenges.len(),
        states.last().points_out == states[0].points_out,
{
    let len = poly.len();
    let k = challenges.len();
    let held = bases.map_values(of);
    let log = crate::open_laws::before_rounds(poly, challenges, bases, s);
    let shared = crate::fused_open::shared_plan::<F, B>(poly, bases, s);
    let iters = crate::fused_open::iter_buffers_plan::<F, B>(len, k);
    let middle = seq![Cmd::Alloc { slot: SCALARS, elem: Elem::Scalar, len: len / 2 }] + iters;
    let alloc: Seq<Cmd<F, B>> = seq![
        Cmd::Alloc { slot: COMMITMENTS, elem: Elem::Point, len: k },
    ];
    let upload: Seq<Cmd<F, B>> = seq![
        Cmd::Upload { slot: CHALLENGES, data: DataView::Scalars(challenges) },
    ];
    assert(log =~= shared + (middle + (alloc + upload)));
    crate::msm_device::runs_in_two::<G, F, B>(
        of,
        act,
        shared,
        middle + (alloc + upload),
        states,
    );
    let s1 = states.take(shared.len() as int + 1);
    let t1 = states.skip(shared.len() as int);
    shared_makes_room::<G, F, B>(of, act, poly, bases, s, s1);
    crate::msm_device::runs_in_two::<G, F, B>(of, act, middle, alloc + upload, t1);
    let s2 = t1.take(middle.len() as int + 1);
    let t2 = t1.skip(middle.len() as int);
    iters_on_fields::<F, B>(len, k);
    assert forall|i: int| 0 <= i < middle.len() implies on_fields(
        #[trigger] middle[i],
        COMMITMENTS,
    ) by {
        if i > 0 {
            assert(middle[i] == iters[i - 1]);
        }
    }
    fields_run::<G, F, B>(of, act, middle, s2, held, s, COMMITMENTS);
    crate::msm_device::runs_in_two::<G, F, B>(of, act, alloc, upload, t2);
    assert(alloc[0] is Alloc && upload[0] is Upload);
    assert(crate::commitment_laws::between_rounds(t2[1], held, s));
    assert(t2[1].points[COMMITMENTS].len() == k);
    assert(on_fields(upload[0], COMMITMENTS));
    fields_run::<G, F, B>(of, act, upload, t2.skip(1), held, s, COMMITMENTS);
}

/// The first `i` rounds.
#[verifier::spinoff_prover]
proof fn open_rounds_run<G: Group, F: PrimeField, B>(
    c: Set<G::Point>,
    of: spec_fn(B) -> G::Point,
    act: spec_fn(int, G::Point) -> G::Point,
    bases: Seq<B>,
    poly: Seq<F>,
    challenges: Seq<F>,
    s: MsmSizes,
    i: nat,
    states: Seq<MsmDevice<G::Point>>,
)
    requires
        open_ok::<G, F>(c, act, bases.map_values(of), poly, challenges, s),
        i <= challenges.len(),
        crate::commitment_laws::fresh(states[0]),
        crate::msm_device::runs::<G, F, B>(
            of,
            act,
            crate::open_laws::before_rounds(poly, challenges, bases, s)
                + crate::fused_open::open_rounds_plan(poly.len(), i),
            states,
        ),
    ensures
        crate::commitment_laws::between_rounds(states.last(), bases.map_values(of), s),
        states.last().points[COMMITMENTS].len() == challenges.len(),
        forall|j: int|
            0 <= j < i ==> #[trigger] states.last().points[COMMITMENTS][j]
                == intermediate_commitment::<G, F>(
                act,
                bases.map_values(of),
                poly,
                challenges,
                j as nat,
            ),
        states.last().points_out == states[0].points_out,
    decreases i,
{
    let held = bases.map_values(of);
    let before = crate::open_laws::before_rounds(poly, challenges, bases, s);
    let rounds = crate::fused_open::open_rounds_plan::<F, B>(poly.len(), i);
    if i == 0 {
        assert(before + rounds =~= before);
        before_rounds_run::<G, F, B>(of, act, bases, poly, challenges, s, states);
    } else {
        let o = (i - 1) as nat;
        let less = before + crate::fused_open::open_rounds_plan::<F, B>(poly.len(), o);
        let round = crate::fused_open::open_round_plan::<F, B>(poly.len(), o);
        assert(before + rounds =~= less + round);
        crate::msm_device::runs_in_two::<G, F, B>(of, act, less, round, states);
        let s1 = states.take(less.len() as int + 1);
        let t1 = states.skip(less.len() as int);
        open_rounds_run::<G, F, B>(c, of, act, bases, poly, challenges, s, o, s1);
        let head = round.take(2);
        let log = crate::open_laws::open_log(poly, challenges, bases, s, o);
        assert(log =~= less + head);
        assert(less + round =~= (less + head) + round.skip(2));
        crate::msm_device::runs_in_two::<G, F, B>(of, act, less + head, round.skip(2), states);
        let upto = states.take((less + head).len() as int + 1);
        crate::msm_device::numbers_run::<G, F, B>(of, act, log, upto);
        crate::open_laws::open_scalars(poly, challenges, bases, s, o);
        assert(upto.last() == t1[2]);
        open_round_runs::<G, F, B>(c, of, act, held, poly, challenges, s, o, t1);
        let e = states.last();
        assert forall|j: int| 0 <= j < i implies #[trigger] e.points[COMMITMENTS][j]
            == intermediate_commitment::<G, F>(act, held, poly, challenges, j as nat) by {
            if j < o {
                assert(s1.last().points[COMMITMENTS][j] == e.points[COMMITMENTS][j]);
            }
        }
    }
}

/// The first part of the fused open operation hands out the commitments to all intermediate
/// polynomials at once, in order, and leaves the buffers of the MSMs and the bases where they are.
#[verifier::spinoff_prover]
proof fn phase2_runs<G: Group, F: PrimeField, B>(
    c: Set<G::Point>,
    of: spec_fn(B) -> G::Point,
    act: spec_fn(int, G::Point) -> G::Point,
    bases: Seq<B>,
    poly: Seq<F>,
    challenges: Seq<F>,
    s: MsmSizes,
    states: Seq<MsmDevice<G::Point>>,
)
    requires
        open_ok::<G, F>(c, act, bases.map_values(of), poly, challenges, s),
        crate::commitment_laws::fresh(states[0]),
        crate::msm_device::runs::<G, F, B>(
            of,
            act,
            crate::fused_open::phase2_plan(poly, challenges, bases, s),
            states,
        ),
    ensures
        crate::commitment_laws::between_rounds(states.last(), bases.map_values(of), s),
        states.last().points_out == (if challenges.len() > 0 {
            seq![
                Seq::new(
                    challenges.len(),
                    |i: int|
                        intermediate_commitment::<G, F>(
                            act,
                            bases.map_values(of),
                            poly,
                            challenges,
                            i as nat,
                        ),
                ),
            ]
        } else {
            Seq::empty()
        }),
{
    let len = poly.len();
    let k = challenges.len();
    let held = bases.map_values(of);
    let plan = crate::fused_open::phase2_plan(poly, challenges, bases, s);
    if k == 0 {
        let shared = crate::fused_open::shared_plan::<F, B>(poly, bases, s);
        let rest = plan.skip(shared.len() as int);
        assert(plan =~= shared + rest);
        crate::msm_device::runs_in_two::<G, F, B>(of, act, shared, rest, states);
        shared_makes_room::<G, F, B>(
            of,
            act,
            poly,
            bases,
            s,
            states.take(shared.len() as int + 1),
        );
        assert(rest.len() == 2);
        assert(rest[0] is Alloc && rest[1] is Alloc);
        assert(on_fields(rest[0], POINT) && on_fields(rest[1], POINT));
        fields_run::<G, F, B>(of, act, rest, states.skip(shared.len() as int), held, s, POINT);
        assert(states.last().points_out =~= Seq::empty());
    } else {
        let before = crate::open_laws::before_rounds(poly, challenges, bases, s)
            + crate::fused_open::open_rounds_plan(len, k);
        let reads = crate::fused_open::iter_reads_plan::<F, B>(len, k);
        let last: Seq<Cmd<F, B>> = seq![
            Cmd::Read { slot: COMMITMENTS, elem: Elem::Point, len: k },
            Cmd::Free { slot: CHALLENGES },
        ];
        assert(plan =~= before + (reads + last));
        crate::msm_device::runs_in_two::<G, F, B>(of, act, before, reads + last, states);
        let s1 = states.take(before.len() as int + 1);
        let t1 = states.skip(before.len() as int);
        open_rounds_run::<G, F, B>(c, of, act, bases, poly, challenges, s, k, s1);
        crate::msm_device::runs_in_two::<G, F, B>(of, act, reads, last, t1);
        let s2 = t1.take(reads.len() as int + 1);
        let t2 = t1.skip(reads.len() as int);
        iters_on_fields::<F, B>(len, k);
        fields_run::<G, F, B>(of, act, reads, s2, held, s, COMMITMENTS);
        assert(last[0] is Read && last[1] is Free);
        let d = t2[0];
        let all = d.points[COMMITMENTS];
        let want = Seq::new(
            k,
            |i: int| intermediate_commitment::<G, F>(act, held, poly, challenges, i as nat),
        );
        assert forall|j: int| 0 <= j < k implies all[j] == want[j] by {
            assert(s1.last().points[COMMITMENTS][j] == all[j]);
        }
        assert(all.take(k as int) =~= want);
        assert(t2[1].points_out == d.points_out.push(want));
        assert(states.last().points_out =~= seq![want]);
    }
}

/// The commitment to the witness polynomial of point `m`.
pub open spec fn opening_commitment<G: Group, F: PrimeField>(
    act: spec_fn(int, G::Point) -> G::Point,
    bases: Seq<G::Point>,
    poly: Seq<F>,
    challenges: Seq<F>,
    coeffs: Seq<F>,
    points: Seq<F>,
    m: nat,
) -> G::Point {
    crate::sorted_sum::multiples::<G>(
        act,
        bases.take(poly.len() - 1),
        crate::commit_laws::naturals(
            crate::field_device::witness(
                crate::open_laws::combined_of(
                    poly,
                    challenges,
                    coeffs,
                    challenges.len() + 1,
                ),
                points[m as int].value() as int,
                F::order() as int,
            ),
        ),
    )
}

spec fn points_ok<F: PrimeField>(
    poly: Seq<F>,
    challenges: Seq<F>,
    coeffs: Seq<F>,
    points: Seq<F>,
    shape: WitnessShape,
) -> bool {
    &&& coeffs.len() >= 1 + challenges.len()
    &&& points.len() <= u32::MAX
    &&& shape.wf()
    &&& shape.num_points == 1
    &&& shape.poly_len == poly.len()
}

/// The round of a point: its MSM, and that its result is saved.
#[verifier::spinoff_prover]
#[verifier::rlimit(60)]
proof fn point_runs<G: Group, F: PrimeField, B>(
    c: Set<G::Point>,
    of: spec_fn(B) -> G::Point,
    act: spec_fn(int, G::Point) -> G::Point,
    held: Seq<G::Point>,
    poly: Seq<F>,
    challenges: Seq<F>,
    s: MsmSizes,
    coeffs: Seq<F>,
    points: Seq<F>,
    shape: WitnessShape,
    m: nat,
    states: Seq<MsmDevice<G::Point>>,
)
    requires
        open_ok::<G, F>(c, act, held, poly, challenges, s),
        points_ok(poly, challenges, coeffs, points, shape),
        m < points.len(),
        crate::commitment_laws::between_rounds(states[0], held, s),
        states[0].points[WITNESS_COMMITMENTS].len() == points.len(),
        crate::msm_device::runs::<G, F, B>(
            of,
            act,
            crate::fused_open::point_plan::<F, B>(points[m as int], shape, m),
            states,
        ),
        states[5].numbers.slots[WITNESS_SCALARS] == crate::field_device::witness(
            crate::open_laws::combined_of(poly, challenges, coeffs, challenges.len() + 1),
            points[m as int].value() as int,
            F::order() as int,
        ),
        crate::open_laws::combined_of(poly, challenges, coeffs, challenges.len() + 1).len()
            == poly.len(),
    ensures
        crate::commitment_laws::between_rounds(states.last(), held, s),
        states.last().points[WITNESS_COMMITMENTS] == states[0].points[WITNESS_COMMITMENTS].update(
            m as int,
            opening_commitment::<G, F>(act, held, poly, challenges, coeffs, points, m),
        ),
        states.last().points_out == states[0].points_out,
{
    let n = (poly.len() - 1) as nat;
    let q = F::order() as int;
    let p = crate::fused_open::open_params(n);
    let o = WITNESS_COMMITMENTS;
    let plan = crate::fused_open::point_plan::<F, B>(points[m as int], shape, m);
    let head = plan.take(5);
    let msm = crate::fused_open::msm_plan::<F, B>(WITNESS_SCALARS, p);
    let save: Seq<Cmd<F, B>> = seq![crate::fused_open::save_plan(WITNESS_COMMITMENTS, m)];
    let free: Seq<Cmd<F, B>> = seq![Cmd::Free { slot: POINT }];
    assert(shape.witness_len() == n);
    assert(plan =~= head + (msm + (save + free)));
    crate::msm_device::runs_in_two::<G, F, B>(of, act, head, msm + (save + free), states);
    let s1 = states.take(6);
    let t1 = states.skip(5);
    assert(head[0] is Upload && head[1] is Launch && head[2] is Launch && head[3] is Launch
        && head[4] is Launch);
    assert(on_fields(head[0], o) && on_fields(head[1], o) && on_fields(head[2], o) && on_fields(
        head[3],
        o,
    ) && on_fields(head[4], o));
    fields_run::<G, F, B>(of, act, head, s1, held, s, o);
    assert(s1[5].standard.contains(WITNESS_SCALARS));
    crate::msm_device::runs_in_two::<G, F, B>(of, act, msm, save + free, t1);
    let s2 = t1.take(msm.len() as int + 1);
    let t2 = t1.skip(msm.len() as int);
    let f = crate::open_laws::combined_of(poly, challenges, coeffs, challenges.len() + 1);
    let u = points[m as int].value() as int;
    let w = crate::field_device::witness(f, u, q);
    let scalars = crate::commit_laws::naturals(w);
    open_covers::<G, F>(c, act, held, poly, challenges, s);
    points[m as int].in_range();
    assert forall|j: int| 0 <= j < w.len() implies 0 <= #[trigger] w[j] < q by {
        vstd::arithmetic::div_mod::lemma_mod_bound(crate::reference::quotient(f, u)[j], q);
    }
    assert forall|j: int| 0 <= j < scalars.len() implies #[trigger] scalars[j]
        < vstd::arithmetic::power2::pow2(p.effective_bits as nat) by {
        assert(0 <= w[j] < q);
    }
    let d = s2[0];
    assert(w.len() == n);
    assert forall|j: int| 0 <= j < scalars.len() implies #[trigger] d.numbers.slots[
        WITNESS_SCALARS
    ][j] == scalars[j] by {
        assert(0 <= w[j]);
    }
    crate::fused_laws::unwatched_msm_gives_sum_of_multiples::<G, F, B>(
        c,
        of,
        act,
        WITNESS_SCALARS,
        held,
        scalars,
        p,
        s,
        s2,
    );
    let e = s2.last();
    assert(e.points[o] == d.points[o]);
    assert(e.points[BASES] == d.points[BASES]);
    crate::msm_device::runs_in_two::<G, F, B>(of, act, save, free, t2);
    assert(save[0] is Launch);
    assert(crate::msm_device::wrote_points(t2[0], t2[1], o));
    assert(crate::commitment_laws::between_rounds(t2[1], held, s));
    assert(on_fields(free[0], o));
    fields_run::<G, F, B>(of, act, free, t2.skip(1), held, s, o);
}

/// What comes before the points.
spec fn before_points<F, B>(
    poly: Seq<F>,
    challenges: Seq<F>,
    coeffs: Seq<F>,
    points: Seq<F>,
    shape: WitnessShape,
) -> Seq<Cmd<F, B>> {
    let len = poly.len();
    let k = challenges.len();
    crate::fused_open::first_term_plan::<F, B>(coeffs[0], len) + crate::fused_open::terms_plan(
        coeffs,
        len,
        k,
    ) + crate::fused_open::iter_frees_plan(k) + crate::fused_open::witness_buffers_plan(
        shape,
        points.len(),
    )
}

proof fn terms_on_fields<F, B>(coeffs: Seq<F>, len: nat, k: nat)
    ensures
        forall|j: int|
            0 <= j < crate::fused_open::terms_plan::<F, B>(coeffs, len, k).len() ==> on_fields(
                #[trigger] crate::fused_open::terms_plan::<F, B>(coeffs, len, k)[j],
                COMMITMENTS,
            ),
    decreases k,
{
    if k > 0 {
        let less = crate::fused_open::terms_plan::<F, B>(coeffs, len, (k - 1) as nat);
        let more = crate::fused_open::term_plan::<F, B>(
            coeffs[k as int],
            len,
            (k - 1) as nat,
        );
        let all = crate::fused_open::terms_plan::<F, B>(coeffs, len, k);
        terms_on_fields::<F, B>(coeffs, len, (k - 1) as nat);
        assert forall|j: int| 0 <= j < all.len() implies on_fields(
            #[trigger] all[j],
            COMMITMENTS,
        ) by {
            if j < less.len() {
                assert(all[j] == less[j]);
            } else {
                assert(all[j] == more[j - less.len()]);
            }
        }
    }
}

/// The linear combination and the buffers of the witness polynomials.
#[verifier::spinoff_prover]
proof fn before_points_run<G: Group, F: PrimeField, B>(
    of: spec_fn(B) -> G::Point,
    act: spec_fn(int, G::Point) -> G::Point,
    held: Seq<G::Point>,
    poly: Seq<F>,
    challenges: Seq<F>,
    s: MsmSizes,
    coeffs: Seq<F>,
    points: Seq<F>,
    shape: WitnessShape,
    states: Seq<MsmDevice<G::Point>>,
)
    requires
        challenges.len() < 64,
        points.len() > 0,
        crate::commitment_laws::between_rounds(states[0], held, s),
        crate::msm_device::runs::<G, F, B>(
            of,
            act,
            before_points(poly, challenges, coeffs, points, shape),
            states,
        ),
    ensures
        crate::commitment_laws::between_rounds(states.last(), held, s),
        states.last().points[WITNESS_COMMITMENTS].len() == points.len(),
        states.last().points_out == states[0].points_out,
{
    let len = poly.len();
    let k = challenges.len();
    let log = before_points::<F, B>(poly, challenges, coeffs, points, shape);
    let a = crate::fused_open::first_term_plan::<F, B>(coeffs[0], len);
    let b = crate::fused_open::terms_plan::<F, B>(coeffs, len, k);
    let e = crate::fused_open::iter_frees_plan::<F, B>(k);
    let g = crate::fused_open::witness_buffers_plan::<F, B>(shape, points.len());
    let quiet = a + b + e + g.take(4);
    let last = g.skip(4);
    assert(log =~= quiet + last);
    crate::msm_device::runs_in_two::<G, F, B>(of, act, quiet, last, states);
    terms_on_fields::<F, B>(coeffs, len, k);
    iters_on_fields::<F, B>(len, k);
    assert forall|j: int| 0 <= j < quiet.len() implies on_fields(
        #[trigger] quiet[j],
        COMMITMENTS,
    ) by {
        if j < a.len() {
            assert(quiet[j] == a[j]);
        } else if j < a.len() + b.len() {
            assert(quiet[j] == b[j - a.len()]);
        } else if j < a.len() + b.len() + e.len() {
            assert(quiet[j] == e[j - a.len() - b.len()]);
        } else {
            assert(quiet[j] == g[j - a.len() - b.len() - e.len()]);
        }
    }
    fields_run::<G, F, B>(
        of,
        act,
        quiet,
        states.take(quiet.len() as int + 1),
        held,
        s,
        COMMITMENTS,
    );
    let t1 = states.skip(quiet.len() as int);
    assert(last.len() == 1 && last[0] is Alloc);
    assert(crate::commitment_laws::between_rounds(t1[1], held, s));
}

/// The first `m` points.
#[verifier::spinoff_prover]
proof fn points_run<G: Group, F: PrimeField, B>(
    c: Set<G::Point>,
    of: spec_fn(B) -> G::Point,
    act: spec_fn(int, G::Point) -> G::Point,
    bases: Seq<B>,
    poly: Seq<F>,
    challenges: Seq<F>,
    s: MsmSizes,
    coeffs: Seq<F>,
    points: Seq<F>,
    shape: WitnessShape,
    m: nat,
    states: Seq<MsmDevice<G::Point>>,
)
    requires
        open_ok::<G, F>(c, act, bases.map_values(of), poly, challenges, s),
        points_ok(poly, challenges, coeffs, points, shape),
        0 < points.len(),
        m <= points.len(),
        crate::commitment_laws::fresh(states[0]),
        crate::msm_device::runs::<G, F, B>(
            of,
            act,
            crate::fused_open::phase2_plan(poly, challenges, bases, s) + (before_points(
                poly,
                challenges,
                coeffs,
                points,
                shape,
            ) + crate::fused_open::points_plan(points, shape, m)),
            states,
        ),
    ensures
        crate::commitment_laws::between_rounds(states.last(), bases.map_values(of), s),
        states.last().points[WITNESS_COMMITMENTS].len() == points.len(),
        forall|j: int|
            0 <= j < m ==> #[trigger] states.last().points[WITNESS_COMMITMENTS][j]
                == opening_commitment::<G, F>(
                act,
                bases.map_values(of),
                poly,
                challenges,
                coeffs,
                points,
                j as nat,
            ),
        states.last().points_out == (if challenges.len() > 0 {
            seq![
                Seq::new(
                    challenges.len(),
                    |i: int|
                        intermediate_commitment::<G, F>(
                            act,
                            bases.map_values(of),
                            poly,
                            challenges,
                            i as nat,
                        ),
                ),
            ]
        } else {
            Seq::empty()
        }),
    decreases m,
{
    let held = bases.map_values(of);
    let phase2 = crate::fused_open::phase2_plan(poly, challenges, bases, s);
    let before = before_points::<F, B>(poly, challenges, coeffs, points, shape);
    let done = crate::fused_open::points_plan::<F, B>(points, shape, m);
    if m == 0 {
        assert(before + done =~= before);
        crate::msm_device::runs_in_two::<G, F, B>(of, act, phase2, before, states);
        let s1 = states.take(phase2.len() as int + 1);
        let t1 = states.skip(phase2.len() as int);
        phase2_runs::<G, F, B>(c, of, act, bases, poly, challenges, s, s1);
        before_points_run::<G, F, B>(
            of,
            act,
            held,
            poly,
            challenges,
            s,
            coeffs,
            points,
            shape,
            t1,
        );
    } else {
        let o = (m - 1) as nat;
        let less = phase2 + (before + crate::fused_open::points_plan::<F, B>(points, shape, o));
        let round = crate::fused_open::point_plan::<F, B>(points[o as int], shape, o);
        assert(phase2 + (before + done) =~= less + round);
        crate::msm_device::runs_in_two::<G, F, B>(of, act, less, round, states);
        let s1 = states.take(less.len() as int + 1);
        let t1 = states.skip(less.len() as int);
        points_run::<G, F, B>(
            c,
            of,
            act,
            bases,
            poly,
            challenges,
            s,
            coeffs,
            points,
            shape,
            o,
            s1,
        );
        let head = round.take(5);
        let log = crate::open_laws::open_point_log(
            poly,
            challenges,
            bases,
            s,
            coeffs,
            points,
            shape,
            o,
        );
        assert(log =~= less + head);
        assert(less + round =~= (less + head) + round.skip(5));
        crate::msm_device::runs_in_two::<G, F, B>(of, act, less + head, round.skip(5), states);
        let upto = states.take((less + head).len() as int + 1);
        crate::msm_device::numbers_run::<G, F, B>(of, act, log, upto);
        crate::open_laws::open_point_scalars(
            poly,
            challenges,
            bases,
            s,
            coeffs,
            points,
            shape,
            o,
        );
        assert(upto.last() == t1[5]);
        point_runs::<G, F, B>(
            c,
            of,
            act,
            held,
            poly,
            challenges,
            s,
            coeffs,
            points,
            shape,
            o,
            t1,
        );
        let e = states.last();
        assert forall|j: int| 0 <= j < m implies #[trigger] e.points[WITNESS_COMMITMENTS][j]
            == opening_commitment::<G, F>(
            act,
            held,
            poly,
            challenges,
            coeffs,
            points,
            j as nat,
        ) by {
            if j < o {
                assert(s1.last().points[WITNESS_COMMITMENTS][j] == e.points[
                    WITNESS_COMMITMENTS
                ][j]);
            }
        }
    }
}

/// The fused open operation hands out two lists of commitments. The first one, which there is if any
/// variable is fixed, has the commitment to each intermediate polynomial, in order. The second one,
/// which there is if there are points, has the commitment to the witness polynomial of each point,
/// in order, for the linear combination of the polynomial and its intermediate polynomials.
///
/// The numbers that kernels are told are 32 bit words, and one bit of the words that stand for bases
/// is the sign, so that the law needs numbers that fit.
#[verifier::spinoff_prover]
pub proof fn opening_hands_out_commitments<G: Group, F: PrimeField, B>(
    c: Set<G::Point>,
    of: spec_fn(B) -> G::Point,
    act: spec_fn(int, G::Point) -> G::Point,
    bases: Seq<B>,
    poly: Seq<F>,
    challenges: Seq<F>,
    s: MsmSizes,
    coeffs: Seq<F>,
    points: Seq<F>,
    shape: WitnessShape,
    states: Seq<MsmDevice<G::Point>>,
)
    requires
        crate::group::abelian::<G>(c),
        crate::single_multiexp::integer_action::<G>(c, act),
        crate::group::all_in(c, bases.map_values(of)),
        bases.len() >= poly.len(),
        2 <= poly.len() <= u32::MAX,
        challenges.len() <= crate::arith::log2(poly.len()),
        F::order() <= vstd::arithmetic::power2::pow2(BN254_SCALAR_BITS as nat),
        s == MsmSizes::of(crate::fused_open::all_params(poly.len(), challenges.len())),
        forall|k: nat|
            1 <= k <= challenges.len() ==> crate::sorted_laws::words_fit(
                #[trigger] crate::fused_open::open_params(crate::poly_ops::halved(poly.len(), k)),
            ),
        crate::sorted_laws::words_fit(crate::fused_open::open_params((poly.len() - 1) as nat)),
        coeffs.len() >= 1 + challenges.len(),
        points.len() <= u32::MAX,
        shape == WitnessShape::of(poly.len() as usize, 1),
        shape.wf(),
        crate::commitment_laws::fresh(states[0]),
        crate::msm_device::runs::<G, F, B>(
            of,
            act,
            crate::fused_open::phase2_plan(poly, challenges, bases, s)
                + crate::fused_open::phase3_plan(coeffs, points, shape, challenges.len()),
            states,
        ),
    ensures
        states.last().points_out == (if challenges.len() > 0 {
            seq![
                Seq::new(
                    challenges.len(),
                    |i: int|
                        intermediate_commitment::<G, F>(
                            act,
                            bases.map_values(of),
                            poly,
                            challenges,
                            i as nat,
                        ),
                ),
            ]
        } else {
            Seq::empty()
        }) + (if points.len() > 0 {
            seq![
                Seq::new(
                    points.len(),
                    |m: int|
                        opening_commitment::<G, F>(
                            act,
                            bases.map_values(of),
                            poly,
                            challenges,
                            coeffs,
                            points,
                            m as nat,
                        ),
                ),
            ]
        } else {
            Seq::empty()
        }),
{
    let len = poly.len();
    let k = challenges.len();
    let n = points.len();
    let held = bases.map_values(of);
    crate::fused_commit::log_is_small(len as usize);
    let phase2 = crate::fused_open::phase2_plan(poly, challenges, bases, s);
    let phase3 = crate::fused_open::phase3_plan::<F, B>(coeffs, points, shape, k);
    let before = before_points::<F, B>(poly, challenges, coeffs, points, shape);
    let all = crate::fused_open::points_plan::<F, B>(points, shape, n);
    if n > 0 {
        let read: Seq<Cmd<F, B>> = seq![
            Cmd::Read { slot: WITNESS_COMMITMENTS, elem: Elem::Point, len: n },
        ];
        let log = phase2 + (before + all);
        assert(phase2 + phase3 =~= log + read);
        crate::msm_device::runs_in_two::<G, F, B>(of, act, log, read, states);
        let s1 = states.take(log.len() as int + 1);
        let t1 = states.skip(log.len() as int);
        points_run::<G, F, B>(
            c,
            of,
            act,
            bases,
            poly,
            challenges,
            s,
            coeffs,
            points,
            shape,
            n,
            s1,
        );
        assert(read[0] is Read);
        let got = t1[0].points[WITNESS_COMMITMENTS];
        let want = Seq::new(
            n,
            |m: int|
                opening_commitment::<G, F>(
                    act,
                    held,
                    poly,
                    challenges,
                    coeffs,
                    points,
                    m as nat,
                ),
        );
        assert(got.take(n as int) =~= want);
        assert(states.last().points_out == t1[0].points_out.push(want));
        assert(t1[0].points_out + seq![want] =~= t1[0].points_out.push(want));
    } else {
        crate::msm_device::runs_in_two::<G, F, B>(of, act, phase2, phase3, states);
        let s1 = states.take(phase2.len() as int + 1);
        let t1 = states.skip(phase2.len() as int);
        phase2_runs::<G, F, B>(c, of, act, bases, poly, challenges, s, s1);
        no_points_run::<G, F, B>(of, act, held, poly, challenges, s, coeffs, points, shape, t1);
        assert(states.last().points_out + Seq::empty() =~= states.last().points_out);
    }
}

/// Without points nothing more is handed out.
#[verifier::spinoff_prover]
proof fn no_points_run<G: Group, F: PrimeField, B>(
    of: spec_fn(B) -> G::Point,
    act: spec_fn(int, G::Point) -> G::Point,
    held: Seq<G::Point>,
    poly: Seq<F>,
    challenges: Seq<F>,
    s: MsmSizes,
    coeffs: Seq<F>,
    points: Seq<F>,
    shape: WitnessShape,
    states: Seq<MsmDevice<G::Point>>,
)
    requires
        challenges.len() < 64,
        points.len() == 0,
        shape.poly_len == poly.len(),
        crate::commitment_laws::between_rounds(states[0], held, s),
        crate::msm_device::runs::<G, F, B>(
            of,
            act,
            crate::fused_open::phase3_plan(coeffs, points, shape, challenges.len()),
            states,
        ),
    ensures
        states.last().points_out == states[0].points_out,
{
    let len = poly.len();
    let k = challenges.len();
    let plan = crate::fused_open::phase3_plan::<F, B>(coeffs, points, shape, k);
    let a = crate::fused_open::first_term_plan::<F, B>(coeffs[0], len);
    let b = crate::fused_open::terms_plan::<F, B>(coeffs, len, k);
    let e = crate::fused_open::iter_frees_plan::<F, B>(k);
    let g = crate::fused_open::witness_buffers_plan::<F, B>(shape, 0);
    assert(plan =~= a + b + e + g);
    terms_on_fields::<F, B>(coeffs, len, k);
    iters_on_fields::<F, B>(len, k);
    assert forall|j: int| 0 <= j < plan.len() implies on_fields(
        #[trigger] plan[j],
        COMMITMENTS,
    ) by {
        if j < a.len() {
            assert(plan[j] == a[j]);
        } else if j < a.len() + b.len() {
            assert(plan[j] == b[j - a.len()]);
        } else if j < a.len() + b.len() + e.len() {
            assert(plan[j] == e[j - a.len() - b.len()]);
        } else {
            assert(plan[j] == g[j - a.len() - b.len() - e.len()]);
        }
    }
    fields_run::<G, F, B>(of, act, plan, states, held, s, COMMITMENTS);
}

} // verus!
