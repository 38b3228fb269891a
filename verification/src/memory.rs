//! How much work fits into the memory of a device.

use vstd::prelude::*;

use crate::arith::div_ceil;
use crate::curve::GpuAffine;
use crate::multiexp::MAX_WINDOW_SIZE;

verus! {

/// A number rounded to 53 significant bits, to the nearest and on a tie to the even one, as a
/// double precision float is.
pub open spec fn round_to_double(v: nat) -> nat {
    let bits = crate::multiexp::bit_len(v);
    if bits <= 53 {
        v
    } else {
        let unit = vstd::arithmetic::power2::pow2((bits - 53) as nat);
        let q = v / unit;
        let r = v % unit;
        if 2 * r > unit || (2 * r == unit && q % 2 == 1) {
            (q + 1) * unit
        } else {
            q * unit
        }
    }
}

/// The share of memory that is used, `1.0 - 0.2` as a double, in units of `2^-53`. The rest is
/// left free.
pub const USED_SHARE: u64 = 7205759403792794;

/// The memory to be used of a device with `mem` bytes, as computed in doubles.
pub open spec fn usable(mem: u64) -> nat {
    round_to_double(round_to_double(mem as nat) * USED_SHARE as nat) / 0x20_0000_0000_0000
}

/// Rounds to 53 significant bits.
fn round_double(v: u128) -> (r: u128)
    requires
        v < 0x80_0000_0000_0000_0000_0000_0000_0000,
    ensures
        r == round_to_double(v as nat),
        r <= 2 * v,
{
    let mut unit: u128 = 1;
    let mut q: u128 = v;
    let ghost mut k: nat = 0;
    assert(vstd::arithmetic::power2::pow2(0) == 1 && vstd::arithmetic::power2::pow2(53)
        == 0x20_0000_0000_0000) by {
        vstd::arithmetic::power2::lemma2_to64();
        vstd::arithmetic::power2::lemma2_to64_rest();
    }
    assert(v / 1 == v);
    proof {
        crate::multiexp::bit_len_bounds(v as nat);
    }
    while q >= 0x20_0000_0000_0000
        invariant
            v < 0x80_0000_0000_0000_0000_0000_0000_0000,
            unit == vstd::arithmetic::power2::pow2(k),
            unit >= 1,
            q == v as nat / vstd::arithmetic::power2::pow2(k),
            q * unit <= v,
            crate::multiexp::bit_len(v as nat) == crate::multiexp::bit_len(q as nat) + k,
            k > 0 ==> q >= 0x10_0000_0000_0000,
        decreases q,
    {
        proof {
            let p = vstd::arithmetic::power2::pow2(k) as int;
            let qi = q as int;
            let vi = v as int;
            vstd::arithmetic::power2::lemma_pow2_unfold(k + 1);
            vstd::arithmetic::div_mod::lemma_div_denominator(vi, p, 2);
            assert(p * 2 == 2 * p);
            assert((qi / 2) * (2 * p) <= vi) by (nonlinear_arith)
                requires
                    qi * p <= vi,
                    p >= 1,
                    qi >= 0,
            ;
            assert(2 * p <= vi) by (nonlinear_arith)
                requires
                    qi * p <= vi,
                    p >= 1,
                    qi >= 2,
            ;
            k = k + 1;
        }
        unit = unit * 2;
        q = q / 2;
    }
    proof {
        let bits = crate::multiexp::bit_len(v as nat);
        crate::multiexp::bit_len_bounds(q as nat);
        let b = crate::multiexp::bit_len(q as nat);
        if b > 53 {
            if b > 54 {
                vstd::arithmetic::power2::lemma_pow2_strictly_increases(53, (b - 1) as nat);
            }
            assert(false);
        }
        if k > 0 && b < 53 {
            vstd::arithmetic::power2::lemma2_to64_rest();
            if b < 52 {
                vstd::arithmetic::power2::lemma_pow2_strictly_increases(b, 52);
            }
            assert(false);
        }
        vstd::arithmetic::div_mod::lemma_fundamental_div_mod(v as int, unit as int);
    }
    if unit == 1 {
        proof {
            if k > 0 {
                vstd::arithmetic::power2::lemma_pow2_strictly_increases(0, k);
            }
        }
        return v;
    }
    proof {
        if k == 0 {
            assert(false);
        }
        let qi = q as int;
        let ui = unit as int;
        let vi = v as int;
        assert(qi * ui == ui * qi) by (nonlinear_arith);
        assert((qi + 1) * ui <= 2 * vi) by (nonlinear_arith)
            requires
                qi * ui <= vi,
                qi >= 1,
                ui >= 1,
        ;
        assert(2 * (vi % ui) <= 2 * vi) by (nonlinear_arith)
            requires
                ui >= 1,
                vi >= 0,
        ;
    }
    let r: u128 = v % unit;
    if 2 * r > unit || (2 * r == unit && q % 2 == 1) {
        (q + 1) * unit
    } else {
        q * unit
    }
}

/// The memory to be used of a device with `mem` bytes: leaves 20% of the memory free.
pub fn usable_memory(mem: u64) -> (r: usize)
    ensures
        r == crate::arith::min_of(usable(mem) as int, usize::MAX as int),
{
    let m: u128 = round_double(mem as u128);
    proof {
        let mi = m as int;
        assert(mi * 7205759403792794 < 0x80_0000_0000_0000_0000_0000_0000_0000int)
            by (nonlinear_arith)
            requires
                0 <= mi <= 0x2_0000_0000_0000_0000,
        ;
    }
    let product: u128 = round_double(m * USED_SHARE as u128);
    let bytes: u128 = product / 0x20_0000_0000_0000;
    if bytes <= usize::MAX as u128 {
        bytes as usize
    } else {
        usize::MAX
    }
}

/// The buckets of one work unit and its result, in points.
pub const POINTS_PER_WORK_UNIT: usize = 32769;

/// The terms and work units that fit into `max_memory` bytes.
pub open spec fn chunk_size_for(
    max_memory: int,
    work_units: int,
    term_size: int,
    proj_size: int,
) -> (int, int) {
    let overhead = POINTS_PER_WORK_UNIT * proj_size;
    let max_wu = max_memory / (overhead + term_size);
    let wu = crate::arith::max_of(crate::arith::min_of(work_units, max_wu), 1);
    ((max_memory - wu * overhead) / term_size, wu)
}

/// Calculates how many terms of `term_size` bytes fit into `max_memory` bytes, beside the buckets
/// and results of `proj_size` bytes each.
///
/// Returns `(chunk_size, effective_work_units)`. The work units may be reduced from the
/// requested value if there isn't enough memory for the bucket overhead.
pub fn fit_terms(max_memory: usize, work_units: usize, term_size: usize, proj_size: usize) -> (r: (
    usize,
    usize,
))
    requires
        term_size > 0,
        POINTS_PER_WORK_UNIT * proj_size + term_size <= usize::MAX,
        POINTS_PER_WORK_UNIT * proj_size <= max_memory,
    ensures
        (r.0 as int, r.1 as int) == chunk_size_for(
            max_memory as int,
            work_units as int,
            term_size as int,
            proj_size as int,
        ),
        r.1 >= 1,
        r.0 * term_size + r.1 * (POINTS_PER_WORK_UNIT * proj_size) <= max_memory,
{
    let overhead_per_wu: usize = POINTS_PER_WORK_UNIT * proj_size;
    let max_wu: usize = max_memory / (overhead_per_wu + term_size);
    let wanted: usize = if work_units <= max_wu {
        work_units
    } else {
        max_wu
    };
    let effective_wu: usize = if wanted >= 1 {
        wanted
    } else {
        1
    };
    proof {
        let m = max_memory as int;
        let o = overhead_per_wu as int;
        let t = term_size as int;
        let e = effective_wu as int;
        let x = max_wu as int;
        vstd::arithmetic::div_mod::lemma_fundamental_div_mod(m, o + t);
        vstd::arithmetic::div_mod::lemma_mod_bound(m, o + t);
        assert(x * (o + t) <= m) by (nonlinear_arith)
            requires
                m == (o + t) * x + m % (o + t),
                m % (o + t) >= 0,
        ;
        if x >= 1 {
            assert(e * o <= m) by (nonlinear_arith)
                requires
                    x * (o + t) <= m,
                    0 <= e <= x,
                    o >= 0,
                    t > 0,
            ;
        } else {
            assert(e * o == o) by (nonlinear_arith)
                requires
                    e == 1,
            ;
        }
        let rest = m - e * o;
        vstd::arithmetic::div_mod::lemma_fundamental_div_mod(rest, t);
        vstd::arithmetic::div_mod::lemma_mod_bound(rest, t);
        assert(t * (rest / t) == (rest / t) * t) by (nonlinear_arith);
    }
    let overhead: usize = effective_wu * overhead_per_wu;
    ((max_memory - overhead) / term_size, effective_wu)
}

/// The size of the exponent in bytes.
///
/// It's the actual bytes size it needs in memory, not it's theoretical bit size.
pub fn exp_size() -> (r: usize)
    ensures
        r == vstd::layout::size_of::<[u64; 4]>(),
{
    std::mem::size_of::<[u64; 4]>()
}

/// The bytes of a term: a base and an exponent.
pub open spec fn term_size<G: GpuAffine>() -> nat {
    vstd::layout::size_of::<G::GpuRepr>() + vstd::layout::size_of::<[u64; 4]>()
}

/// Calculates the maximum number of terms that can be put onto the GPU memory.
///
/// Returns `(chunk_size, effective_work_units)`. The work units may be reduced from the
/// requested value if the GPU doesn't have enough memory for the bucket overhead.
pub fn calc_chunk_size<G: GpuAffine>(mem: u64, work_units: usize) -> (r: (usize, usize))
    requires
        term_size::<G>() > 0,
        POINTS_PER_WORK_UNIT * vstd::layout::size_of::<G::Group>() + term_size::<G>() <= usize::MAX,
        POINTS_PER_WORK_UNIT * vstd::layout::size_of::<G::Group>() <= usable(mem),
    ensures
        (r.0 as int, r.1 as int) == chunk_size_for(
            crate::arith::min_of(usable(mem) as int, usize::MAX as int),
            work_units as int,
            term_size::<G>() as int,
            vstd::layout::size_of::<G::Group>() as int,
        ),
        r.1 >= 1,
{
    let aff_size: usize = std::mem::size_of::<G::GpuRepr>();
    let proj_size: usize = std::mem::size_of::<G::Group>();
    let max_memory: usize = usable_memory(mem);
    fit_terms(max_memory, work_units, aff_size + exp_size(), proj_size)
}

/// The bytes of the buffers of the sorted MSM whose length does not depend on the number of bases.
pub open spec fn sorted_fixed_size(proj_size: int) -> int {
    let num_windows: int = 16;
    let total_buckets = num_windows * 32768;
    // counts, offsets and ids of buckets; results of buckets and windows; the final result; the
    // number of buckets that are not empty
    total_buckets * 4 * 3 + total_buckets * proj_size + num_windows * proj_size + proj_size + 4
}

/// The bytes that one base takes in the sorted MSM, beside the base and its exponent: digits,
/// pairs of key and value, and sorted values, for each window.
pub open spec fn sorted_base_size() -> int {
    16int * 2 + 16int * 4 * 2 + 16int * 4
}

/// Calculates the maximum number of terms that fit into `max_memory` bytes for sorted MSM.
pub fn fit_terms_sorted(max_memory: usize, term_size: usize, proj_size: usize) -> (r: usize)
    requires
        sorted_fixed_size(proj_size as int) <= max_memory,
        term_size + sorted_base_size() <= usize::MAX,
    ensures
        r == (max_memory - sorted_fixed_size(proj_size as int)) / (term_size + sorted_base_size()),
        r * (term_size + sorted_base_size()) + sorted_fixed_size(proj_size as int) <= max_memory,
{
    // For sorted MSM, we use max window size to calculate worst-case memory
    let num_windows: usize = div_ceil(256, MAX_WINDOW_SIZE);
    assert(num_windows == 16);
    let buckets_per_window: usize = 32768;
    let total_buckets: usize = num_windows * buckets_per_window;
    let per_base_intermediate: usize = num_windows * 2 + num_windows * 4 * 2 + num_windows * 4;
    let fixed_buffers: usize = total_buckets * 4 * 3 + total_buckets * proj_size + num_windows
        * proj_size + proj_size + 4;
    proof {
        let rest = max_memory - fixed_buffers;
        let per = term_size + per_base_intermediate;
        vstd::arithmetic::div_mod::lemma_fundamental_div_mod(rest, per);
        vstd::arithmetic::div_mod::lemma_mod_bound(rest, per);
        assert(per * (rest / per) == (rest / per) * per) by (nonlinear_arith);
    }
    (max_memory - fixed_buffers) / (term_size + per_base_intermediate)
}

/// Calculates the maximum number of terms that can be put onto the GPU memory for sorted MSM.
///
/// The sorted MSM uses a different memory layout:
/// - Bases and exponents (same as regular MSM)
/// - Signed digits: n * num_windows * sizeof(u16)
/// - Pairs (keys + values): n * num_windows * sizeof(u32) * 2
/// - Sorted values: n * num_windows * sizeof(u32)
/// - Counts, offsets, nonempty_ids: total_buckets * sizeof(u32) * 3
/// - Bucket results: total_buckets * proj_size
/// - Window results: num_windows * proj_size
/// - Final result: 1 * proj_size
pub fn calc_chunk_size_sorted<G: GpuAffine>(mem: u64) -> (r: usize)
    requires
        sorted_fixed_size(vstd::layout::size_of::<G::Group>() as int) <= usable(mem),
        sorted_fixed_size(vstd::layout::size_of::<G::Group>() as int) <= usize::MAX,
        term_size::<G>() + sorted_base_size() <= usize::MAX,
    ensures
        r == (crate::arith::min_of(usable(mem) as int, usize::MAX as int) - sorted_fixed_size(
            vstd::layout::size_of::<G::Group>() as int,
        )) / (term_size::<G>() + sorted_base_size()),
{
    let aff_size: usize = std::mem::size_of::<G::GpuRepr>();
    let proj_size: usize = std::mem::size_of::<G::Group>();
    let max_memory: usize = usable_memory(mem);
    fit_terms_sorted(max_memory, aff_size + exp_size(), proj_size)
}

} // verus!
