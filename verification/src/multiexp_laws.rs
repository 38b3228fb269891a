//! What multiexponentiations and multiplications of a point compute.
//!
//! The laws speak of every run of a session on a device whose kernels do what they are for, as
//! [`crate::msm_device`] says it.

use vstd::prelude::*;

use crate::curve::GpuAffine;
use crate::field::PrimeField;
use crate::fused_msm::{BN254_SCALAR_BITS, FIELD_WORK_SIZE};
use crate::group::Group;
use crate::msm_device::MsmDevice;
use crate::multiexp::LOCAL_WORK_SIZE;
use crate::scalar_mul::{TableShape, MONT_SCALARS, MULTIPLES, STANDARD_SCALARS, TABLE};
use crate::combined_ops::Either;
use crate::error::EcError;
use crate::fused_commit::FusedPolyCommit;
use crate::session::Session;
use crate::single_multiexp::{Multiexp, MultiexpShape, SingleMultiexpKernel};

verus! {

/// The shape for a number of scalars is one that windows can have.
proof fn table_shape_wf(n: nat)
    ensures
        TableShape::of(n).wf(),
{
    let w = crate::scalar_mul::mul_window(n);
    vstd::arithmetic::power2::lemma2_to64();
    crate::arith::ceil_div_least(BN254_SCALAR_BITS as int, w as int);
    if w < 16 {
        vstd::arithmetic::power2::lemma_pow2_strictly_increases(w, 16);
    }
}

/// Multiplying a point by many scalars gives exactly one point for each scalar, and it is the
/// multiple by that scalar, in order. `of` reads a base as the point of the group that it represents.
///
/// The number of scalars that the kernel is told is a 32 bit word, so that the law needs a number
/// that fits.
pub proof fn scalar_mul_gives_multiples<G: GpuAffine>(
    c: Set<<G::Group as Group>::Point>,
    act: spec_fn(int, <G::Group as Group>::Point) -> <G::Group as Group>::Point,
    of: spec_fn(G::GpuRepr) -> <G::Group as Group>::Point,
    base: <G::Group as Group>::Point,
    table: Seq<G::GpuRepr>,
    scalars: Seq<G::ScalarField>,
    states: Seq<MsmDevice<<G::Group as Group>::Point>>,
)
    requires
        crate::group::abelian::<G::Group>(c),
        c.contains(base),
        forall|r: G::GpuRepr, p: <G::Group as Group>::Point|
            c.contains(p) && #[trigger] G::represents(r, p) ==> of(r) == p,
        G::ScalarField::order() <= vstd::arithmetic::power2::pow2(BN254_SCALAR_BITS as nat),
        0 < scalars.len() <= u32::MAX,
        crate::scalar_mul::is_table::<G>(table, base, TableShape::of(scalars.len())),
        crate::msm_device::runs::<G::Group, G::ScalarField, G::GpuRepr>(
            of,
            act,
            crate::scalar_mul::scalar_mul_plan(table, scalars, TableShape::of(scalars.len())),
            states,
        ),
        states[0].points_out.len() == 0,
    ensures
        states.last().points_out.len() == 1,
        states.last().points_out[0].len() == scalars.len(),
        forall|i: int|
            0 <= i < scalars.len() ==> #[trigger] states.last().points_out[0][i]
                == crate::group::times::<G::Group>(scalars[i].value(), base),
{
    let n = scalars.len();
    let t = TableShape::of(n);
    table_shape_wf(n);
    t.bounds();
    let log = crate::scalar_mul::scalar_mul_plan::<G::ScalarField, G::GpuRepr>(table, scalars, t);
    crate::field_device::groups_suffice(n, FIELD_WORK_SIZE);
    assert(log[0] is Upload && log[1] is Upload && log[2] is Alloc && log[3] is Launch && log[4]
        is Alloc && log[5] is Launch && log[6] is Read);
    let v = crate::reference::values(scalars);
    assert(states[2].numbers.slots[MONT_SCALARS] == v);
    assert(v.take(n as int) =~= v);
    assert(states[3].numbers.slots[STANDARD_SCALARS].len() == n);
    assert(states[4].numbers.slots[STANDARD_SCALARS] =~= v);
    assert(states[4].standard.contains(STANDARD_SCALARS));
    assert(states[5].numbers.slots[STANDARD_SCALARS] == v);
    assert(states[5].points[TABLE] == table.map_values(of));
    let out = states[6].points[MULTIPLES];
    assert(out.len() == n);
    assert forall|i: int| 0 <= i < n implies #[trigger] out[i] == crate::group::times::<G::Group>(
        scalars[i].value(),
        base,
    ) by {
        scalars[i].in_range();
        let k = scalars[i].value();
        assert(v[i] == k);
        let window = t.window as nat;
        let points = states[5].points[TABLE];
        let all = vstd::arithmetic::power2::pow2(BN254_SCALAR_BITS as nat);
        vstd::arithmetic::div_mod::lemma_small_mod(k, all);
        let size = vstd::arithmetic::power2::pow2(window);
        let mine = Seq::new(
            t.num_windows as nat,
            |o: int|
                points[o * size + (k / vstd::arithmetic::power2::pow2((o * window) as nat)) % size],
        );
        let want = crate::scalar_mul::lookups::<G::Group>(base, t, k, t.num_windows as nat);
        assert forall|o: int| 0 <= o < t.num_windows implies mine[o] == want[o] by {
            crate::scalar_mul::digit_is_filled(t, k, o as nat);
            let d = t.digit(k, o as nat) as int;
            let nw = t.num_windows as int;
            let sz = size as int;
            assert(0 <= o * sz && o * sz + d < nw * sz) by (nonlinear_arith)
                requires
                    0 <= o < nw,
                    0 <= d < sz,
            ;
            let at = o * sz + d;
            vstd::arithmetic::div_mod::lemma_fundamental_div_mod_converse(at, sz, o, d);
            let up = crate::group::doubled::<G::Group>(base, o as nat * window);
            crate::group::doubled_in::<G::Group>(c, base, o as nat * window);
            crate::group::times_in::<G::Group>(c, d as nat, up);
            assert(G::represents(
                table[o * sz + d],
                crate::scalar_mul::entry::<G::Group>(base, t, o * sz + d),
            ));
        }
        assert(mine =~= want);
        crate::scalar_mul::table_gives_multiples::<G::Group>(c, base, t, k);
        assert(out[i] == crate::msm_device::table_sum::<G::Group>(
            points,
            k,
            window,
            t.num_windows as nat,
            BN254_SCALAR_BITS as nat,
        ));
    }
    assert(states[7].points_out.last() == out.take(n as int));
}

/// The bytes of exponents stand for the exponents.
pub proof fn bytes_are_exponents(exponents: Seq<[u64; 4]>)
    ensures
        ({
            let numbers = crate::field_device::numbers(
                crate::single_multiexp::exponent_bytes(exponents),
            );
            let values = crate::single_multiexp::exponent_values(exponents);
            &&& numbers.len() == exponents.len()
            &&& values.len() == exponents.len()
            &&& forall|j: int| 0 <= j < exponents.len() ==> #[trigger] numbers[j] == values[j]
        }),
{
    let numbers = crate::field_device::numbers(
        crate::single_multiexp::exponent_bytes(exponents),
    );
    let values = crate::single_multiexp::exponent_values(exponents);
    assert forall|j: int| 0 <= j < exponents.len() implies #[trigger] numbers[j] == values[j] by {
        crate::limbs::limbs_value_4(exponents[j]@);
        crate::limbs::pow256_small();
        crate::limbs::value_of_le_bytes(crate::field::num(exponents[j]), 32);
    }
}

/// The first `m` groups of threads together add up the first terms of a window.
proof fn groups_add_up<G: Group>(
    c: Set<G::Point>,
    act: spec_fn(int, G::Point) -> G::Point,
    bases: Seq<G::Point>,
    digits: Seq<int>,
    numbers: spec_fn(int, int) -> int,
    n: nat,
    groups: nat,
    num_windows: nat,
    w: int,
    m: nat,
)
    requires
        crate::group::abelian::<G>(c),
        crate::single_multiexp::integer_action::<G>(c, act),
        crate::group::all_in(c, bases),
        n <= bases.len(),
        groups > 0,
        m <= groups,
        0 <= w < num_windows,
        forall|j: int| 0 <= j < n ==> digits[j * num_windows + w] == #[trigger] numbers(j, w),
    ensures
        ({
            let per = crate::arith::ceil_div(n as int, groups as int);
            let k = crate::arith::min_of(m * per, n as int) as nat;
            let sums = Seq::new(
                m,
                |g: int|
                    crate::msm_device::thread_sum::<G>(
                        act,
                        bases,
                        digits,
                        n,
                        groups,
                        num_windows,
                        g,
                        w,
                    ),
            );
            &&& crate::group::all_in(c, sums)
            &&& crate::group::sum::<G>(sums) == crate::group::sum::<G>(
                crate::single_multiexp::digit_terms::<G>(act, bases, numbers, w, k),
            )
        }),
    decreases m,
{
    let per = crate::arith::ceil_div(n as int, groups as int);
    crate::arith::ceil_div_least(n as int, groups as int);
    let k = crate::arith::min_of(m * per, n as int) as nat;
    let f = |g: int|
        crate::msm_device::thread_sum::<G>(act, bases, digits, n, groups, num_windows, g, w);
    let sums = Seq::new(m, f);
    let all = crate::single_multiexp::digit_terms::<G>(act, bases, numbers, w, k);
    if m == 0 {
        assert(0 * per == 0);
        assert(sums =~= Seq::empty());
        assert(all =~= Seq::empty());
    } else {
        let g = m - 1;
        let o = (m - 1) as nat;
        groups_add_up::<G>(c, act, bases, digits, numbers, n, groups, num_windows, w, o);
        let before = Seq::new(o, f);
        assert(sums.drop_last() =~= before);
        let first = g * per;
        assert(first + per == m * per) by (nonlinear_arith)
            requires
                first == g * per,
                g == m - 1,
        ;
        assert(first >= 0) by (nonlinear_arith)
            requires
                first == g * per,
                g >= 0,
                per >= 0,
        ;
        let low = crate::arith::min_of(first, n as int) as nat;
        let mine = Seq::new(
            crate::arith::max_of(0, crate::arith::min_of(first + per, n as int) - first) as nat,
            |j: int| act(digits[(first + j) * num_windows + w], bases[first + j]),
        );
        assert(f(g) == crate::group::sum::<G>(mine));
        let head = crate::single_multiexp::digit_terms::<G>(act, bases, numbers, w, low);
        assert(low + mine.len() == k);
        assert forall|j: int| 0 <= j < mine.len() implies #[trigger] mine[j] == act(
            numbers(first + j, w),
            bases[first + j],
        ) && c.contains(mine[j]) by {
            assert(digits[(first + j) * num_windows + w] == numbers(first + j, w));
            assert(c.contains(bases[first + j]));
        }
        assert forall|j: int| 0 <= j < head.len() implies c.contains(#[trigger] head[j]) by {
            assert(c.contains(bases[j]));
        }
        assert(all =~= head + mine);
        crate::group::sum_concat::<G>(c, head, mine);
        crate::group::add_all_in::<G>(c, G::identity(), mine);
        assert forall|i: int| 0 <= i < sums.len() implies c.contains(#[trigger] sums[i]) by {
            if i < o {
                assert(before[i] == sums[i]);
            }
        }
    }
}

/// Results of threads that do not belong to a group do not count.
proof fn spare_results<G: Group>(a: Seq<G::Point>, b: Seq<G::Point>, s: MultiexpShape, i: nat)
    requires
        forall|q: int| 0 <= q < s.num_groups * s.num_windows ==> #[trigger] a[q] == b[q],
    ensures
        crate::single_multiexp::horner::<G>(a, s, i) == crate::single_multiexp::horner::<G>(
            b,
            s,
            i,
        ),
    decreases s.num_windows - i,
{
    if i < s.num_windows {
        spare_results::<G>(a, b, s, i + 1);
        let ng = s.num_groups as int;
        let nw = s.num_windows as int;
        let wa = crate::single_multiexp::window_points(a, s, i);
        let wb = crate::single_multiexp::window_points(b, s, i);
        assert forall|g: int| 0 <= g < ng implies wa[g] == wb[g] by {
            assert(0 <= g * nw + i < ng * nw) by (nonlinear_arith)
                requires
                    0 <= g < ng,
                    0 <= i < nw,
            ;
            assert(a[g * nw + i] == b[g * nw + i]);
        }
        assert(wa =~= wb);
    }
}

/// A multiexponentiation on one device gives the sum of the multiples of all bases by their
/// exponents: one point comes back for each thread, and Horner's method makes the sum of them.
///
/// The numbers that kernels are told are 32 bit words, so that the law needs numbers that fit. There
/// has to be a thread for each window: with fewer threads than windows there is no group at all, and
/// nothing is added up.
pub proof fn multiexp_gives_sum_of_multiples<G: Group, F: PrimeField, B>(
    c: Set<G::Point>,
    act: spec_fn(int, G::Point) -> G::Point,
    of: spec_fn(B) -> G::Point,
    bases: Seq<B>,
    exponents: Seq<[u64; 4]>,
    work_units: nat,
    s: MultiexpShape,
    states: Seq<MsmDevice<G::Point>>,
)
    requires
        crate::group::abelian::<G>(c),
        crate::single_multiexp::integer_action::<G>(c, act),
        crate::group::all_in(c, bases.map_values(of)),
        exponents.len() == bases.len(),
        0 < bases.len() <= u32::MAX,
        work_units <= u32::MAX,
        crate::single_multiexp::splits(s, bases.len(), work_units, exponents),
        s.num_windows <= work_units,
        crate::msm_device::runs::<G, F, B>(
            of,
            act,
            crate::single_multiexp::multiexp_plan(
                bases,
                crate::single_multiexp::exponent_bytes(exponents),
                s,
            ),
            states,
        ),
        states[0].points_out.len() == 0,
    ensures
        states.last().points_out.len() == 1,
        states.last().points_out[0].len() == work_units,
        crate::single_multiexp::horner::<G>(states.last().points_out[0], s, 0)
            == crate::sorted_sum::multiples::<G>(
            act,
            bases.map_values(of),
            crate::single_multiexp::exponent_values(exponents),
        ),
{
    let n = bases.len();
    let ws = s.window_size as nat;
    let nw = s.num_windows as nat;
    let ng = s.num_groups as nat;
    let points = bases.map_values(of);
    let values = crate::single_multiexp::exponent_values(exponents);
    let log = crate::single_multiexp::multiexp_plan::<F, B>(
        bases,
        crate::single_multiexp::exponent_bytes(exponents),
        s,
    );
    assert(log[0] is Upload && log[1] is Upload && log[2] is Alloc && log[3] is Launch && log[4]
        is Alloc && log[5] is Alloc && log[6] is Launch && log[7] is Read);
    bytes_are_exponents(exponents);
    crate::arith::ceil_div_least(s.effective_bits as int + 1, ws as int);
    crate::field_device::groups_suffice(n, LOCAL_WORK_SIZE);
    vstd::arithmetic::div_mod::lemma_fundamental_div_mod(work_units as int, nw as int);
    vstd::arithmetic::div_mod::lemma_mod_bound(work_units as int, nw as int);
    let numbers = crate::field_device::numbers(
        crate::single_multiexp::exponent_bytes(exponents),
    );
    assert(states[3].numbers.slots[1] == numbers);
    assert(states[3].standard.contains(1));
    assert(s.n_bases * s.num_windows == n * nw);
    let digits = states[4].digits[2];
    assert forall|i: int| 0 <= i < n * nw implies #[trigger] digits[i]
        == crate::booth::signed_digit(
        values[i / (nw as int)],
        ws,
        (i % (nw as int)) as nat,
    ) by {
        flat_index(i, n as int, nw as int);
        assert(numbers[i / (nw as int)] == values[i / (nw as int)]);
    }
    let half = vstd::arithmetic::power2::pow2((ws - 1) as nat);
    assert forall|i: int| 0 <= i < n * nw implies -half <= #[trigger] digits[i] <= half by {
        crate::booth::digit_bounds(values[i / (nw as int)], ws, (i % (nw as int)) as nat);
    }
    assert(ng >= 1) by {
        let q = ng as int;
        let u = work_units as int;
        let k = nw as int;
        assert(q >= 1) by (nonlinear_arith)
            requires
                u == k * q + u % k,
                0 <= u % k < k,
                u >= k,
        ;
    }
    let threads = ng * nw;
    assert(threads <= work_units) by (nonlinear_arith)
        requires
            threads == ng * nw,
            work_units == nw * ng + work_units % nw,
            work_units % nw >= 0,
    ;
    assert(threads * half <= work_units * half) by (nonlinear_arith)
        requires
            threads <= work_units,
    ;
    assert(nw * ng == ng * nw) by (nonlinear_arith);
    crate::field_device::groups_suffice(threads, LOCAL_WORK_SIZE);
    assert(states[6].digits[2] == digits);
    assert(states[6].points[0] == points);
    let results = states[7].points[4];
    assert(results.len() == work_units);
    assert forall|q: int| 0 <= q < threads implies #[trigger] results[q]
        == crate::msm_device::thread_sum::<G>(
        act,
        points,
        digits,
        n,
        ng,
        nw,
        q / (nw as int),
        q % (nw as int),
    ) by {}
    assert(results.take(work_units as int) =~= results);
    assert(states[8].points_out[0] == results);
    let terms = crate::sorted_sum::digits_of(values, ws);
    let used = Seq::new(
        work_units,
        |q: int|
            if q < threads {
                results[q]
            } else {
                G::identity()
            },
    );
    assert forall|i: int| 0 <= i < nw implies {
        let mine = #[trigger] crate::single_multiexp::window_points(used, s, i as nat);
        &&& crate::group::sum::<G>(mine) == crate::group::sum::<G>(
            crate::single_multiexp::digit_terms::<G>(act, points, terms, i, n),
        )
        &&& crate::group::all_in(c, mine)
    } by {
        assert forall|j: int| 0 <= j < n implies digits[j * nw + i] == #[trigger] terms(j, i) by {
            let k = nw as int;
            vstd::arithmetic::div_mod::lemma_fundamental_div_mod_converse(j * k + i, k, j, i);
            let m = n as int;
            assert(0 <= j * k + i < m * k) by (nonlinear_arith)
                requires
                    0 <= j < m,
                    0 <= i < k,
            ;
            assert(digits[j * k + i] == crate::booth::signed_digit(values[j], ws, i as nat));
        }
        groups_add_up::<G>(c, act, points, digits, terms, n, ng, nw, i, ng);
        crate::arith::ceil_div_least(n as int, ng as int);
        let mine = crate::single_multiexp::window_points(used, s, i as nat);
        let sums = Seq::new(
            ng,
            |g: int|
                crate::msm_device::thread_sum::<G>(act, points, digits, n, ng, nw, g, i),
        );
        assert forall|g: int| 0 <= g < ng implies mine[g] == sums[g] by {
            let k = nw as int;
            let m = ng as int;
            vstd::arithmetic::div_mod::lemma_fundamental_div_mod_converse(g * k + i, k, g, i);
            assert(0 <= g * k + i < m * k) by (nonlinear_arith)
                requires
                    0 <= g < m,
                    0 <= i < k,
            ;
            assert(used[g * k + i] == results[g * k + i]);
        }
        assert(mine =~= sums);
        let per = crate::arith::ceil_div(n as int, ng as int);
        assert(ng * per == per * ng) by (nonlinear_arith);
        assert(crate::arith::min_of(ng * per, n as int) == n);
    }
    assert forall|q: int| 0 <= q < used.len() implies c.contains(#[trigger] used[q]) by {
        if q < threads {
            flat_index(q, ng as int, nw as int);
            let mine = crate::single_multiexp::window_points(used, s, (q % (nw as int)) as nat);
            let g = q / (nw as int);
            assert(c.contains(mine[g]));
            assert(g * (nw as int) + q % (nw as int) == q) by {
                vstd::arithmetic::div_mod::lemma_fundamental_div_mod(q, nw as int);
                let k = nw as int;
                assert(g * k == k * g) by (nonlinear_arith);
            }
        }
    }
    crate::multiexp::max_bits_tight(values);
    let exps = Seq::new(values.len(), |j: int| values[j] as int);
    assert forall|j: int| 0 <= j < n implies #[trigger] exps[j]
        == crate::single_multiexp::digits_number(terms, j, ws, nw) by {
        crate::sorted_sum::digits_of_scalar(values, j, ws, nw);
        crate::booth::signed_digits_fit(values[j], s.effective_bits as nat, ws);
    }
    crate::single_multiexp::multiexp_is_sum_of_multiples::<G>(
        c,
        act,
        points,
        exps,
        terms,
        used,
        s,
    );
    spare_results::<G>(results, used, s, 0);
    assert(Seq::new(n, |j: int| act(exps[j], points[j])) =~= Seq::new(
        n,
        |j: int| act(values[j] as int, points[j]),
    ));
}

/// The row and the column of an index into rows that lie back to back.
pub proof fn flat_index(i: int, rows: int, width: int)
    requires
        0 <= i < rows * width,
        width > 0,
    ensures
        0 <= i / width < rows,
        0 <= i % width < width,
        (i / width) * width + i % width == i,
{
    vstd::arithmetic::div_mod::lemma_fundamental_div_mod(i, width);
    vstd::arithmetic::div_mod::lemma_mod_bound(i, width);
    let q = i / width;
    let r = i % width;
    assert(0 <= q < rows) by (nonlinear_arith)
        requires
            i == width * q + r,
            0 <= r < width,
            0 <= i < rows * width,
    ;
    assert(q * width == width * q) by (nonlinear_arith);
}

/// A multiexponentiation on one device, from the bases and the exponents to the point that is
/// returned: it is the sum of the multiples of the bases by the exponents. `results` is what the
/// device hands back for the session.
///
/// The numbers that kernels are told are 32 bit words, so that the law needs numbers that fit, and
/// there has to be a thread for each window.
pub proof fn multiexp_returns_sum<'a, G: GpuAffine>(
    c: Set<<G::Group as Group>::Point>,
    act: spec_fn(int, <G::Group as Group>::Point) -> <G::Group as Group>::Point,
    of: spec_fn(G::GpuRepr) -> <G::Group as Group>::Point,
    kernel: &SingleMultiexpKernel<G>,
    bases: &'a [G::GpuRepr],
    exponents: &[[u64; 4]],
    m: Multiexp<'a, G>,
    states: Seq<MsmDevice<<G::Group as Group>::Point>>,
    results: &[G::Group],
    r: G::Group,
)
    requires
        crate::group::abelian::<G::Group>(c),
        crate::single_multiexp::integer_action::<G::Group>(c, act),
        crate::group::all_in(c, bases@.map_values(of)),
        exponents@.len() == bases@.len(),
        0 < bases@.len() <= u32::MAX,
        kernel.spec_work_units() <= u32::MAX,
        call_ensures(
            SingleMultiexpKernel::<G>::multiexp,
            (kernel, bases, exponents, false),
            Ok::<Multiexp<'a, G>, EcError>(m),
        ),
        m.spec_shape().num_windows <= kernel.spec_work_units(),
        crate::msm_device::runs::<G::Group, G::ScalarField, G::GpuRepr>(
            of,
            act,
            m.spec_session()@,
            states,
        ),
        states[0].points_out.len() == 0,
        states.last().points_out[0] == crate::group::points(results@),
        call_ensures(Multiexp::<'a, G>::finish, (&m, results), r),
    ensures
        r.point() == crate::sorted_sum::multiples::<G::Group>(
            act,
            bases@.map_values(of),
            crate::single_multiexp::exponent_values(exponents@),
        ),
{
    multiexp_gives_sum_of_multiples::<G::Group, G::ScalarField, G::GpuRepr>(
        c,
        act,
        of,
        bases@,
        exponents@,
        kernel.spec_work_units(),
        m.spec_shape(),
        states,
    );
}

/// Multiplying a point by many scalars, from the point and the scalars to the points that are
/// returned: there is one for each scalar, and it is the multiple by that scalar, in order. `results`
/// is what the device hands back for the session.
///
/// The number of scalars that the kernel is told is a 32 bit word, so that the law needs a number
/// that fits.
pub proof fn scalar_mul_returns_multiples<'a, G: GpuAffine>(
    c: Set<<G::Group as Group>::Point>,
    act: spec_fn(int, <G::Group as Group>::Point) -> <G::Group as Group>::Point,
    of: spec_fn(G::GpuRepr) -> <G::Group as Group>::Point,
    kernel: &FusedPolyCommit<G>,
    base: &G,
    scalars: &'a [G::ScalarField],
    session: Session<'a, G::ScalarField, G::GpuRepr>,
    states: Seq<MsmDevice<<G::Group as Group>::Point>>,
    results: &[G::Group],
    r: Vec<G>,
)
    requires
        crate::group::abelian::<G::Group>(c),
        c.contains(base.affine_point()),
        forall|x: G::GpuRepr, p: <G::Group as Group>::Point|
            c.contains(p) && #[trigger] G::represents(x, p) ==> of(x) == p,
        G::ScalarField::order() <= vstd::arithmetic::power2::pow2(BN254_SCALAR_BITS as nat),
        0 < scalars@.len() <= u32::MAX,
        call_ensures(
            FusedPolyCommit::<G>::batch_scalar_mul,
            (kernel, base, scalars),
            Either::<Vec<G>, Session<'a, G::ScalarField, G::GpuRepr>>::Run(session),
        ),
        crate::msm_device::runs::<G::Group, G::ScalarField, G::GpuRepr>(
            of,
            act,
            session@,
            states,
        ),
        states[0].points_out.len() == 0,
        states.last().points_out[0] == crate::group::points(results@),
        call_ensures(FusedPolyCommit::<G>::finish_scalar_mul, (results,), r),
    ensures
        r@.len() == scalars@.len(),
        forall|i: int|
            0 <= i < scalars@.len() ==> (#[trigger] r@[i]).affine_point()
                == crate::group::times::<G::Group>(scalars@[i].value(), base.affine_point()),
{
    let shape = TableShape::of(scalars@.len());
    let table = choose|table: Seq<G::GpuRepr>|
        crate::scalar_mul::is_table::<G>(table, base.affine_point(), shape) && session@
            == #[trigger] crate::scalar_mul::scalar_mul_plan::<G::ScalarField, G::GpuRepr>(
            table,
            scalars@,
            shape,
        );
    scalar_mul_gives_multiples::<G>(c, act, of, base.affine_point(), table, scalars@, states);
    let out = states.last().points_out[0];
    assert(out.len() == results@.len());
    assert forall|i: int| 0 <= i < scalars@.len() implies (#[trigger] r@[i]).affine_point()
        == crate::group::times::<G::Group>(scalars@[i].value(), base.affine_point()) by {
        assert(out[i] == results@[i].point());
    }
}

} // verus!
