//! What the sizes that the work is cut into are for.

use vstd::prelude::*;

use crate::batch_commit::max_len;
use crate::curve::GpuAffine;
use crate::fused_open::calc_sort_window_size;
use crate::memory::{calc_chunk_size, calc_chunk_size_sorted, fit_terms, fit_terms_sorted, usable_memory};
use crate::multiexp::{
    compute_sorted_msm_params,
    compute_work_units,
    window_size,
    SortedMsmParams,
    MAX_WINDOW_SIZE,
};
use crate::opencl::Device;
use crate::witness::WitnessShape;

verus! {

/// The bytes of the buckets and the result of one work unit: half as many buckets as the largest
/// window has values, as the digits are signed.
pub open spec fn unit_bytes(proj_size: nat) -> nat {
    (vstd::arithmetic::power2::pow2((MAX_WINDOW_SIZE - 1) as nat) + 1) * proj_size
}

/// Whether `terms` terms and the buckets of `units` work units fill the memory: they fit, one more
/// term does not, and there are fewer work units than asked for only where one more with a term for
/// it would not fit.
pub open spec fn fills(
    max_memory: nat,
    work_units: nat,
    term_size: nat,
    proj_size: nat,
    terms: nat,
    units: nat,
) -> bool {
    let unit = unit_bytes(proj_size);
    &&& units >= 1
    &&& units <= work_units || units == 1
    &&& terms * term_size + units * unit <= max_memory
    &&& (terms + 1) * term_size + units * unit > max_memory
    &&& units < work_units ==> (units + 1) * (unit + term_size) > max_memory
    &&& units > 1 ==> terms >= 1
}

proof fn chunks_fill(m: int, w: int, t: int, p: int)
    requires
        t > 0,
        p >= 0,
        w >= 0,
        32769 * p <= m,
    ensures
        ({
            let (terms, units) = crate::memory::chunk_size_for(m, w, t, p);
            &&& terms >= 0
            &&& fills(m as nat, w as nat, t as nat, p as nat, terms as nat, units as nat)
        }),
{
    vstd::arithmetic::power2::lemma2_to64();
    assert(unit_bytes(p as nat) == 32769 * p);
    let o = 32769 * p;
    let x = m / (o + t);
    vstd::arithmetic::div_mod::lemma_fundamental_div_mod(m, o + t);
    vstd::arithmetic::div_mod::lemma_mod_bound(m, o + t);
    let (terms, e) = crate::memory::chunk_size_for(m, w, t, p);
    assert(x * (o + t) <= m && (x + 1) * (o + t) > m && x >= 0) by (nonlinear_arith)
        requires
            m == (o + t) * x + m % (o + t),
            0 <= m % (o + t) < o + t,
            m >= 0,
            o + t > 0,
    ;
    if x >= 1 {
        assert(e * (o + t) <= m && e * (o + t) == e * o + e * t) by (nonlinear_arith)
            requires
                x * (o + t) <= m,
                1 <= e <= x,
                o >= 0,
                t > 0,
        ;
        assert(e * t >= t) by (nonlinear_arith)
            requires
                e >= 1,
                t > 0,
        ;
    } else {
        assert(e == 1);
        assert(e * o == o) by (nonlinear_arith)
            requires
                e == 1,
        ;
    }
    let rest = m - e * o;
    vstd::arithmetic::div_mod::lemma_fundamental_div_mod(rest, t);
    vstd::arithmetic::div_mod::lemma_mod_bound(rest, t);
    assert(terms * t <= rest && (terms + 1) * t > rest && terms >= 0) by (nonlinear_arith)
        requires
            rest == t * terms + rest % t,
            0 <= rest % t < t,
            rest >= 0,
    ;
    if e < w {
        assert((e + 1) * (o + t) >= (x + 1) * (o + t)) by (nonlinear_arith)
            requires
                e >= x,
                o + t > 0,
        ;
    }
    if e > 1 {
        assert(terms >= 1) by (nonlinear_arith)
            requires
                (terms + 1) * t > rest,
                rest >= t,
                t > 0,
        ;
    }
}

/// What is put onto a device fills its memory. [`fills`] says what that is.
pub proof fn terms_fill_memory(
    max_memory: usize,
    work_units: usize,
    term_size: usize,
    proj_size: usize,
    r: (usize, usize),
)
    requires
        call_ensures(fit_terms, (max_memory, work_units, term_size, proj_size), r),
        term_size > 0,
        unit_bytes(proj_size as nat) <= max_memory,
    ensures
        fills(
            max_memory as nat,
            work_units as nat,
            term_size as nat,
            proj_size as nat,
            r.0 as nat,
            r.1 as nat,
        ),
{
    vstd::arithmetic::power2::lemma2_to64();
    assert(unit_bytes(proj_size as nat) == 32769 * proj_size);
    chunks_fill(max_memory as int, work_units as int, term_size as int, proj_size as int);
}

/// What is put onto a device fills the part of its memory that is to be used.
pub proof fn chunk_fills_device<G: GpuAffine>(
    mem: u64,
    work_units: usize,
    used: usize,
    r: (usize, usize),
)
    requires
        call_ensures(calc_chunk_size::<G>, (mem, work_units), r),
        call_ensures(usable_memory, (mem,), used),
        crate::memory::term_size::<G>() > 0,
        unit_bytes(vstd::layout::size_of::<G::Group>()) <= used,
    ensures
        fills(
            used as nat,
            work_units as nat,
            vstd::layout::size_of::<G::GpuRepr>() + vstd::layout::size_of::<[u64; 4]>(),
            vstd::layout::size_of::<G::Group>(),
            r.0 as nat,
            r.1 as nat,
        ),
{
    let p = vstd::layout::size_of::<G::Group>();
    vstd::arithmetic::power2::lemma2_to64();
    assert(unit_bytes(p) == 32769 * p);
    chunks_fill(used as int, work_units as int, crate::memory::term_size::<G>() as int, p as int);
}

/// The bytes of all buffers of a sort-based MSM: bases and exponents, digits, pairs of a key and a
/// value and sorted values, counts, offsets and ids of buckets, results of buckets and of windows,
/// the final result, and the number of buckets that are not empty.
pub open spec fn sorted_bytes(p: SortedMsmParams, term_size: nat, proj_size: nat) -> int {
    let pairs = p.n_bases * p.num_windows;
    let buckets = p.num_windows * p.buckets_per_window;
    p.n_bases * term_size + pairs * 2 + pairs * 8 + pairs * 4 + buckets * 12 + buckets * proj_size
        + p.num_windows * proj_size + proj_size + 4
}

/// For scalars of 255 bits and the largest windows, the buffers of a sort-based MSM for as many terms
/// as are said to fit do fit into the memory, and those for one more term do not.
pub proof fn sorted_terms_fill_memory(
    max_memory: usize,
    term_size: usize,
    proj_size: usize,
    r: usize,
    p: SortedMsmParams,
    more: SortedMsmParams,
)
    requires
        call_ensures(fit_terms_sorted, (max_memory, term_size, proj_size), r),
        crate::memory::sorted_fixed_size(proj_size as int) <= max_memory,
        p.wf() && more.wf(),
        p.n_bases == r,
        more.n_bases == r + 1,
        p.window_size == MAX_WINDOW_SIZE && more.window_size == MAX_WINDOW_SIZE,
        p.effective_bits == 255 && more.effective_bits == 255,
    ensures
        sorted_bytes(p, term_size as nat, proj_size as nat) <= max_memory,
        sorted_bytes(more, term_size as nat, proj_size as nat) > max_memory,
{
    vstd::arithmetic::power2::lemma2_to64();
    assert(p.num_windows == 16 && more.num_windows == 16);
    assert(p.buckets_per_window == 32768 && more.buckets_per_window == 32768);
    let fixed = crate::memory::sorted_fixed_size(proj_size as int);
    let per = term_size + crate::memory::sorted_base_size();
    assert(per == term_size + 224);
    let n = r as int;
    let t = term_size as int;
    let rest = max_memory - fixed;
    vstd::arithmetic::div_mod::lemma_fundamental_div_mod(rest, per);
    vstd::arithmetic::div_mod::lemma_mod_bound(rest, per);
    assert(n * t + 224 * n <= rest && (n + 1) * t + 224 * (n + 1) > rest) by (nonlinear_arith)
        requires
            rest == per * n + rest % per,
            0 <= rest % per < per,
            per == t + 224,
    ;
}

/// What is put onto a device for a sort-based MSM is as much as fits into the part of its memory that
/// is to be used.
pub proof fn sorted_chunk_is_what_fits<G: GpuAffine>(mem: u64, used: usize, r: usize, s: usize)
    requires
        call_ensures(calc_chunk_size_sorted::<G>, (mem,), r),
        call_ensures(usable_memory, (mem,), used),
        crate::memory::term_size::<G>() <= usize::MAX,
        vstd::layout::size_of::<G::Group>() <= usize::MAX,
        call_ensures(
            fit_terms_sorted,
            (
                used,
                (vstd::layout::size_of::<G::GpuRepr>() + vstd::layout::size_of::<[u64; 4]>())
                    as usize,
                vstd::layout::size_of::<G::Group>() as usize,
            ),
            s,
        ),
    ensures
        r == s,
{
}

/// Rounding to a double changes a number by at most one part in `2^53`.
proof fn rounding_is_close(v: nat)
    ensures
        ({
            let r = crate::memory::round_to_double(v) as int;
            &&& (r - v) * 0x20_0000_0000_0000 <= v
            &&& (v - r) * 0x20_0000_0000_0000 <= v
        }),
{
    let bits = crate::multiexp::bit_len(v);
    if bits > 53 {
        let unit = vstd::arithmetic::power2::pow2((bits - 53) as nat) as int;
        let vi = v as int;
        crate::multiexp::bit_len_bounds(v);
        vstd::arithmetic::power2::lemma_pow2_adds((bits - 53) as nat, 52);
        vstd::arithmetic::power2::lemma2_to64();
        vstd::arithmetic::power2::lemma2_to64_rest();
        vstd::arithmetic::power2::lemma_pow2_pos((bits - 53) as nat);
        vstd::arithmetic::div_mod::lemma_fundamental_div_mod(vi, unit);
        vstd::arithmetic::div_mod::lemma_mod_bound(vi, unit);
        let q = vi / unit;
        let m = vi % unit;
        assert((q + 1) * unit == unit * q + unit && q * unit == unit * q) by (nonlinear_arith);
        assert(unit * 0x10_0000_0000_0000 <= vi);
        let r = crate::memory::round_to_double(v) as int;
        assert(2 * (r - vi) <= unit && 2 * (vi - r) <= unit);
    }
}

/// The memory to be used is four fifths of that of the device, but for what the rounding of doubles
/// adds or takes away: one part in `2^49`, and less than two bytes.
pub proof fn a_fifth_is_left_free(mem: u64, used: usize)
    requires
        call_ensures(usable_memory, (mem,), used),
        mem <= usize::MAX,
    ensures
        5 * used <= 4 * mem + mem / 0x2_0000_0000_0000 + 10,
        5 * used >= 4 * mem - mem / 0x2_0000_0000_0000 - 10,
{
    let e = 0x20_0000_0000_0000int;
    let m = mem as int;
    let a = crate::memory::round_to_double(mem as nat) as int;
    rounding_is_close(mem as nat);
    let s = crate::memory::USED_SHARE as int;
    let prod = (a as nat * s as nat) as nat;
    assert(prod == a * s);
    let b = crate::memory::round_to_double(prod) as int;
    rounding_is_close(prod);
    assert(5 * s == 4 * e + 2);
    let u = crate::memory::usable(mem) as int;
    assert(u == b / e);
    assert(e * u <= b < e * u + e);
    // In parts of `2^53`: `a` is `mem` but for one part, the product is four fifths of it but for two
    // bytes in all, and `b` is the product but for one part more.
    assert((a - m) * e <= m && (m - a) * e <= m);
    assert(5 * prod == 4 * e * a + 2 * a) by (nonlinear_arith)
        requires
            prod == a * s,
            5 * s == 4 * e + 2,
    ;
    assert(4 * e * a == 4 * (e * a)) by (nonlinear_arith);
    assert((a - m) * e == e * a - e * m && (m - a) * e == e * m - e * a) by (nonlinear_arith);
    let ea = e * a;
    let em = e * m;
    assert(ea <= em + m && ea >= em - m);
    assert(a <= m + m / e + 1);
    assert(5 * prod <= 4 * em + 4 * m + 2 * a);
    assert(5 * prod >= 4 * em - 4 * m);
    let pi = prod as int;
    assert((b - pi) * e <= pi && (pi - b) * e <= pi);
    assert(pi <= 4 * e * 0x1_0000_0000_0000_0000) by (nonlinear_arith)
        requires
            5 * pi <= 4 * em + 4 * m + 2 * a,
            em == e * m,
            a <= m + m / e + 1,
            0 <= m < 0x1_0000_0000_0000_0000,
            e == 0x20_0000_0000_0000,
    ;
    assert(b <= pi + pi / e + 1 && b >= pi - pi / e - 1);
    assert(5 * (e * u) <= 4 * em + 4 * m + 2 * a + 5 * (pi / e) + 5);
    assert(5 * (e * u) >= 4 * em - 4 * m - 5 * (pi / e) - 5 - 5 * e);
    assert(5 * (pi / e) <= 5 * m + 16);
    let up = 5 * u;
    assert(e * up == 5 * (e * u)) by (nonlinear_arith)
        requires
            up == 5 * u,
    ;
    assert(4 * em == e * (4 * m)) by (nonlinear_arith)
        requires
            em == e * m,
    ;
    let fm = 4 * m;
    assert(up <= fm + m / 0x2_0000_0000_0000 + 10) by {
        assert(e * up <= e * fm + 12 * m + 100);
    }
    assert(up >= fm - m / 0x2_0000_0000_0000 - 10) by {
        assert(e * up >= e * fm - 9 * m - 100 - 5 * e);
    }
}

/// Each compute unit of a device gives 128 work units, and one of the Ampere architecture, which is
/// major version 8, gives 256.
pub proof fn work_units_per_compute_unit(a: &Device, b: &Device, more: nat, r: usize, s: usize)
    requires
        call_ensures(compute_work_units, (a,), r),
        call_ensures(compute_work_units, (b,), s),
        b@.compute_units == a@.compute_units + more,
        b@.compute_capability == a@.compute_capability,
    ensures
        a@.compute_units == 0 ==> r == 0,
        a@.compute_capability matches Some((major, _)) && major == 8 ==> s == r + 256 * more,
        !(a@.compute_capability matches Some((major, _)) && major == 8) ==> s == r + 128 * more,
{
}

/// The window size is two more than the logarithm of the number of terms of each work unit, rounded
/// up: for a window of `2 + k` bits, that number is at least `2^k`, and unless the window is the
/// largest one it is less than `2^(k+1)`.
pub proof fn window_fits_terms(num_terms: usize, work_units: usize, r: usize)
    requires
        call_ensures(window_size, (num_terms, work_units), r),
        work_units > 0,
        num_terms > 0,
    ensures
        2 <= r <= 16,
        work_units * (vstd::arithmetic::power2::pow2((r - 2) as nat) - 1) < num_terms,
        r < 16 ==> num_terms <= work_units * (vstd::arithmetic::power2::pow2((r - 1) as nat) - 1),
{
    let n = num_terms as int;
    let u = work_units as int;
    let t = crate::arith::ceil_div(n, u);
    crate::arith::ceil_div_least(n, u);
    crate::arith::log2_bounds(t as nat);
    let k = crate::arith::log2(t as nat);
    if k + 2 > 16 {
        vstd::arithmetic::power2::lemma_pow2_strictly_increases(14, k);
    }
    let lo = vstd::arithmetic::power2::pow2((r - 2) as nat) as int;
    assert(lo <= t);
    assert(u * (lo - 1) < n) by (nonlinear_arith)
        requires
            (t - 1) * u < n,
            lo <= t,
            u > 0,
    ;
    if r < 16 {
        let hi = vstd::arithmetic::power2::pow2((r - 1) as nat) as int;
        assert(t <= hi - 1);
        assert(n <= u * (hi - 1)) by (nonlinear_arith)
            requires
                t * u >= n,
                t <= hi - 1,
                u > 0,
        ;
    }
}

/// Whether a window size aims at about a thousand points for each bucket of a window: at least 512 and
/// less than 1024, but for the smallest window, whose buckets may get fewer, and the largest one,
/// whose buckets may get more.
pub open spec fn aims_at_a_thousand(n_bases: nat, window: nat) -> bool {
    let buckets = vstd::arithmetic::power2::pow2((window - 1) as nat);
    &&& 3 <= window <= 16
    &&& window > 3 ==> 512 * buckets <= n_bases
    &&& window < 16 ==> n_bases < 1024 * buckets
}

proof fn log_aims_at_a_thousand(n: nat)
    requires
        n >= 1,
    ensures
        aims_at_a_thousand(
            n,
            crate::arith::min_of(
                crate::arith::max_of(3, crate::arith::log2(n) - 8),
                16,
            ) as nat,
        ),
{
    let k = crate::arith::log2(n);
    crate::arith::log2_bounds(n);
    vstd::arithmetic::power2::lemma2_to64();
    vstd::arithmetic::power2::lemma2_to64_rest();
    if k < 11 {
        vstd::arithmetic::power2::lemma_pow2_strictly_increases(k + 1, 12);
    } else if k <= 24 {
        vstd::arithmetic::power2::lemma_pow2_adds(9, (k - 9) as nat);
        vstd::arithmetic::power2::lemma_pow2_unfold(k + 1);
    } else {
        vstd::arithmetic::power2::lemma_pow2_strictly_increases(24, k);
    }
}

/// The parameters of a sort-based MSM aim at about a thousand points for each bucket, have half as
/// many buckets as a window has values, and as many windows as it takes for the bits of the scalars
/// and the carry.
pub proof fn sorted_params_aim_at_a_thousand(
    n_bases: usize,
    effective_bits: usize,
    r: SortedMsmParams,
)
    requires
        call_ensures(compute_sorted_msm_params, (n_bases, effective_bits), r),
        n_bases >= 256,
    ensures
        r.n_bases == n_bases && r.effective_bits == effective_bits,
        aims_at_a_thousand(n_bases as nat, r.window_size as nat),
        2 * r.buckets_per_window == vstd::arithmetic::power2::pow2(r.window_size as nat),
        r.num_windows * r.window_size >= effective_bits + 1,
        (r.num_windows - 1) * r.window_size <= effective_bits,
{
    log_aims_at_a_thousand(n_bases as nat);
    vstd::arithmetic::power2::lemma_pow2_unfold(r.window_size as nat);
    crate::multiexp::windows_cover_bits(effective_bits as nat, r.window_size as nat);
}

/// The window size for commitments aims at about a thousand points for each bucket, too.
pub proof fn sort_window_aims_at_a_thousand(n_bases: usize, r: usize)
    requires
        call_ensures(calc_sort_window_size, (n_bases,), r),
        n_bases >= 1,
    ensures
        aims_at_a_thousand(n_bases as nat, r as nat),
{
    log_aims_at_a_thousand(n_bases as nat);
}

/// A witness polynomial is cut into chunks whose length is a 4096th of its own, rounded down, but at
/// least one element, and into as many of them as it takes.
pub proof fn witness_has_4096_chunks(poly_len: usize, num_points: usize, r: WitnessShape)
    requires
        call_ensures(WitnessShape::new, (poly_len, num_points), r),
        poly_len >= 2,
    ensures
        r.poly_len == poly_len && r.num_points == num_points,
        r.chunk_size >= 1,
        r.chunk_size > 1 ==> 4096 * r.chunk_size <= poly_len - 1,
        poly_len - 1 < 4096 * (r.chunk_size + 1),
        r.num_chunks * r.chunk_size >= poly_len - 1,
        (r.num_chunks - 1) * r.chunk_size < poly_len - 1,
{
    crate::witness::chunks_cover_witness(r);
}

/// The longest length is that of one of the polynomials, and no polynomial is longer.
pub proof fn longest_is_one_of_them<F>(polys: &[&[F]], r: usize, i: int)
    requires
        call_ensures(max_len::<F>, (polys,), r),
        0 <= i < polys@.len(),
    ensures
        polys@[i]@.len() <= r,
        exists|k: int| 0 <= k < polys@.len() && (#[trigger] polys@[k])@.len() == r,
{
    let views = crate::poly_ops::polys_view(polys@);
    crate::batch_commit::longest_bounds(views, i);
    assert(views[i] == polys@[i]@);
    longest_is_reached(views);
    let k = choose|k: int|
        0 <= k < views.len() && (#[trigger] views[k]).len() == crate::batch_commit::longest(views);
    assert(views[k] == polys@[k]@);
}

proof fn longest_is_reached<F>(polys: Seq<Seq<F>>)
    requires
        polys.len() > 0,
    ensures
        exists|k: int|
            0 <= k < polys.len() && (#[trigger] polys[k]).len() == crate::batch_commit::longest(
                polys,
            ),
    decreases polys.len(),
{
    let rest = polys.drop_last();
    let n = polys.len() - 1;
    if rest.len() > 0 {
        longest_is_reached(rest);
        let k = choose|k: int|
            0 <= k < rest.len() && (#[trigger] rest[k]).len() == crate::batch_commit::longest(rest);
        assert(rest[k] == polys[k]);
    } else {
        assert(crate::batch_commit::longest(rest) == 0);
    }
    assert(polys.last() == polys[n]);
}

} // verus!
