//! Multiexponentiation: parameters and tables.

use vstd::prelude::*;

use crate::arith::{div_ceil, floor_log2, pow2_usize};
use crate::opencl::Device;

verus! {

/// On the GPU, the exponents are split into windows, this is the maximum number of such windows.
pub const MAX_WINDOW_SIZE: usize = 16;

/// In CUDA this is the number of blocks per grid (grid size).
pub const LOCAL_WORK_SIZE: usize = 128;

/// The Nvidia Ampere architecture is compute capability major version 8.
pub const AMPERE: u32 = 8;

/// Chunk size for parallel bucket reduction (shared memory suffix sum).
/// Each thread block processes this many buckets. Must be a power of 2.
pub const REDUCTION_CHUNK_SIZE: usize = 256;

/// Maximum number of points per chunk when splitting large buckets.
/// Buckets with more points than this are split across multiple threads.
pub const CHUNK_SIZE: usize = 256;

/// The number of units that [`work_units`] returns.
pub open spec fn spec_work_units(compute_units: u32, capability: Option<(u32, u32)>) -> int {
    if capability matches Some((major, _)) && major == AMPERE {
        LOCAL_WORK_SIZE * compute_units * 2
    } else {
        LOCAL_WORK_SIZE * compute_units
    }
}

/// The number of units the work is split into. One unit will result in one CUDA thread.
///
/// Based on empirical results, it turns out that on Nvidia devices with the Ampere architecture,
/// it's faster to use two times the number of work units.
fn work_units(compute_units: u32, compute_capabilities: Option<(u32, u32)>) -> (r: usize)
    requires
        spec_work_units(compute_units, compute_capabilities) <= usize::MAX,
    ensures
        r == spec_work_units(compute_units, compute_capabilities),
{
    match compute_capabilities {
        Some((major, _)) => if major == AMPERE {
            LOCAL_WORK_SIZE * compute_units as usize * 2
        } else {
            LOCAL_WORK_SIZE * compute_units as usize
        },
        None => LOCAL_WORK_SIZE * compute_units as usize,
    }
}

/// Compute the number of work units for a device.
pub fn compute_work_units(device: &Device) -> (r: usize)
    requires
        spec_work_units(device@.compute_units, device@.compute_capability) <= usize::MAX,
    ensures
        r == spec_work_units(device@.compute_units, device@.compute_capability),
{
    work_units(device.compute_units(), device.compute_capability())
}

/// The window size for a number of terms on a number of work units.
pub open spec fn window_size_for(num_terms: nat, work_units: nat) -> nat {
    crate::arith::min_of(
        (crate::arith::log2(crate::arith::ceil_div(num_terms as int, work_units as int) as nat)
            + 2) as int,
        MAX_WINDOW_SIZE as int,
    ) as nat
}

/// The number of windows that scalars of a number of bits have.
///
/// Signed-digit (Booth) encoding can produce a carry out of the last window, so one extra bit of
/// headroom is needed.
pub open spec fn num_windows_for(effective_bits: nat, window_size: nat) -> nat {
    crate::arith::ceil_div(effective_bits as int + 1, window_size as int) as nat
}

/// Calculates the window size, based on the given number of terms.
///
/// For best performance, the window size is reduced, so that maximum parallelism is possible.
/// If you e.g. have put only a subset of the terms into the GPU memory, then a smaller window
/// size leads to more windows, hence more units to work on, as we split the work into
/// `num_windows * num_groups`.
pub fn window_size(num_terms: usize, work_units: usize) -> (r: usize)
    requires
        work_units > 0,
    ensures
        r == window_size_for(num_terms as nat, work_units as nat),
        2 <= r <= MAX_WINDOW_SIZE,
{
    let w: usize = floor_log2(div_ceil(num_terms, work_units)) + 2;
    if w <= MAX_WINDOW_SIZE {
        w
    } else {
        MAX_WINDOW_SIZE
    }
}

/// Parameters for running sort-based MSM within an existing GPU session.
#[derive(Copy, Clone, Debug, PartialEq, Eq, Structural)]
pub struct SortedMsmParams {
    /// Number of bases in the MSM.
    pub n_bases: usize,
    /// Number of windows for scalar decomposition.
    pub num_windows: usize,
    /// Number of buckets per window (2^(window_size-1) for signed digits).
    pub buckets_per_window: usize,
    /// Window size in bits.
    pub window_size: usize,
    /// Actual bit length needed for the scalars.
    pub effective_bits: usize,
}

/// The parameters for a number of bases, a bit length and a window size.
pub open spec fn params_for(n_bases: nat, effective_bits: nat, window_size: nat) -> SortedMsmParams {
    SortedMsmParams {
        n_bases: n_bases as usize,
        num_windows: num_windows_for(effective_bits, window_size) as usize,
        buckets_per_window: vstd::arithmetic::power2::pow2((window_size - 1) as nat) as usize,
        window_size: window_size as usize,
        effective_bits: effective_bits as usize,
    }
}

impl SortedMsmParams {
    /// Whether windows and buckets are what the window size and the bit length ask for.
    pub open spec fn wf(&self) -> bool {
        &&& 2 <= self.window_size <= MAX_WINDOW_SIZE
        &&& self.num_windows == num_windows_for(
            self.effective_bits as nat,
            self.window_size as nat,
        )
        &&& self.buckets_per_window == vstd::arithmetic::power2::pow2(
            (self.window_size - 1) as nat,
        )
    }

    /// The parameters for a given window size.
    pub fn with_window_size(n_bases: usize, effective_bits: usize, window_size: usize) -> (r: Self)
        requires
            effective_bits < usize::MAX,
            2 <= window_size <= MAX_WINDOW_SIZE,
        ensures
            r.wf(),
            r == params_for(n_bases as nat, effective_bits as nat, window_size as nat),
            r.n_bases == n_bases,
            r.window_size == window_size,
            r.effective_bits == effective_bits,
    {
        SortedMsmParams {
            n_bases,
            num_windows: div_ceil(effective_bits + 1, window_size),
            buckets_per_window: pow2_usize(window_size - 1),
            window_size,
            effective_bits,
        }
    }
}

/// The windows reach past the highest bit, and no window starts past it.
pub proof fn windows_cover_bits(effective_bits: nat, window_size: nat)
    requires
        window_size >= 1,
    ensures
        num_windows_for(effective_bits, window_size) >= 1,
        num_windows_for(effective_bits, window_size) * window_size > effective_bits,
        (num_windows_for(effective_bits, window_size) - 1) * window_size <= effective_bits,
{
    crate::arith::ceil_div_least(effective_bits as int + 1, window_size as int);
}

/// Computes MSM parameters for the sort-based approach.
///
/// This determines optimal window size and derived parameters based on the number
/// of bases. The window size calculation balances parallelism and memory usage: each bucket is
/// processed by one thread serially, and the window size aims at about 1000 points per bucket.
pub fn compute_sorted_msm_params(n_bases: usize, effective_bits: usize) -> (r: SortedMsmParams)
    requires
        n_bases >= 256,
        effective_bits < usize::MAX,
    ensures
        r.wf(),
        r.n_bases == n_bases,
        r.effective_bits == effective_bits,
        r.window_size == crate::arith::min_of(
            crate::arith::max_of(3, crate::arith::log2(n_bases as nat) - 8),
            MAX_WINDOW_SIZE as int,
        ),
{
    proof {
        assert(crate::arith::log2(256) == 8) by {
            reveal_with_fuel(crate::arith::log2, 9);
        }
        crate::arith::log2_monotonic(256, n_bases as nat);
    }
    let log: usize = floor_log2(n_bases) - 8;
    let ws: usize = if log < 3 {
        3
    } else {
        log
    };
    let ws: usize = if ws <= MAX_WINDOW_SIZE {
        ws
    } else {
        MAX_WINDOW_SIZE
    };
    SortedMsmParams::with_window_size(n_bases, effective_bits, ws)
}

/// The number of bits of a number.
pub open spec fn bit_len(v: nat) -> nat
    decreases v,
{
    if v == 0 {
        0
    } else {
        1 + bit_len(v / 2)
    }
}

/// A number has `n` bits exactly if it lies between the powers of two.
pub proof fn bit_len_is(v: nat, n: nat)
    requires
        n > 0,
        vstd::arithmetic::power2::pow2((n - 1) as nat) <= v < vstd::arithmetic::power2::pow2(n),
    ensures
        bit_len(v) == n,
    decreases n,
{
    vstd::arithmetic::power2::lemma_pow2_unfold(n);
    vstd::arithmetic::power2::lemma_pow2_pos((n - 1) as nat);
    if n == 1 {
        vstd::arithmetic::power2::lemma2_to64();
        assert(v == 1);
        reveal_with_fuel(bit_len, 2);
    } else {
        vstd::arithmetic::power2::lemma_pow2_unfold((n - 1) as nat);
        bit_len_is(v / 2, (n - 1) as nat);
    }
}

/// A number is less than two to the power of its number of bits, which is the least such power.
pub proof fn bit_len_bounds(v: nat)
    ensures
        v < vstd::arithmetic::power2::pow2(bit_len(v)),
        v > 0 ==> vstd::arithmetic::power2::pow2((bit_len(v) - 1) as nat) <= v,
        v > 0 ==> bit_len(v) > 0,
    decreases v,
{
    vstd::arithmetic::power2::lemma2_to64();
    if v > 0 {
        bit_len_bounds(v / 2);
        vstd::arithmetic::power2::lemma_pow2_unfold(bit_len(v));
        if v >= 2 {
            vstd::arithmetic::power2::lemma_pow2_unfold((bit_len(v) - 1) as nat);
        }
    }
}

/// The number of bits of the largest of some numbers, but at least one.
pub open spec fn max_bits(values: Seq<nat>) -> nat
    decreases values.len(),
{
    if values.len() == 0 {
        1
    } else {
        crate::arith::max_of(
            max_bits(values.drop_last()) as int,
            bit_len(values.last()) as int,
        ) as nat
    }
}

/// The numbers that little-endian scalars stand for.
pub open spec fn scalar_values(scalars: Seq<[u8; 32]>) -> Seq<nat> {
    scalars.map_values(|b: [u8; 32]| crate::limbs::bytes_value(b@))
}

/// Bytes above the first `n` that are all zero do not count.
proof fn bytes_value_top(s: Seq<u8>, n: nat)
    requires
        n <= s.len(),
        forall|j: int| n <= j < s.len() ==> s[j] == 0,
    ensures
        crate::limbs::bytes_value(s) == crate::limbs::bytes_value(s.take(n as int)),
    decreases n,
{
    if n == 0 {
        zero_bytes_value(s);
        assert(s.take(0) =~= Seq::empty());
    } else {
        bytes_value_top(s.drop_first(), (n - 1) as nat);
        assert(s.take(n as int).drop_first() =~= s.drop_first().take(n - 1));
    }
}

proof fn zero_bytes_value(s: Seq<u8>)
    requires
        forall|j: int| 0 <= j < s.len() ==> s[j] == 0,
    ensures
        crate::limbs::bytes_value(s) == 0,
    decreases s.len(),
{
    if s.len() > 0 {
        zero_bytes_value(s.drop_first());
    }
}

proof fn bytes_value_last(s: Seq<u8>)
    requires
        s.len() > 0,
    ensures
        crate::limbs::bytes_value(s) == crate::limbs::bytes_value(s.drop_last())
            + crate::limbs::pow256((s.len() - 1) as nat) * s.last(),
    decreases s.len(),
{
    if s.len() == 1 {
        reveal_with_fuel(crate::limbs::bytes_value, 2);
        assert(s.drop_last() =~= Seq::empty());
        assert(s.drop_first() =~= Seq::empty());
        let p = crate::limbs::pow256((s.len() - 1) as nat) as int;
        let l = s.last() as int;
        assert(p * l == l) by (nonlinear_arith)
            requires
                p == 1,
        ;
    } else {
        bytes_value_last(s.drop_first());
        assert(s.drop_first().last() == s.last());
        assert(s.drop_last().drop_first() =~= s.drop_first().drop_last());
        let p = crate::limbs::pow256((s.len() - 2) as nat) as int;
        let q = crate::limbs::pow256((s.len() - 1) as nat) as int;
        let l = s.last() as int;
        assert(q * l == 256 * (p * l)) by (nonlinear_arith)
            requires
                q == 256 * p,
        ;
    }
}

proof fn pow256_is_pow2(n: nat)
    ensures
        crate::limbs::pow256(n) == vstd::arithmetic::power2::pow2(8 * n),
    decreases n,
{
    vstd::arithmetic::power2::lemma2_to64();
    if n > 0 {
        pow256_is_pow2((n - 1) as nat);
        vstd::arithmetic::power2::lemma_pow2_adds(8, (8 * n - 8) as nat);
    }
}

/// The bits of a byte that is not zero.
fn byte_bits(b: u8) -> (r: usize)
    requires
        b != 0,
    ensures
        1 <= r <= 8,
        vstd::arithmetic::power2::pow2((r - 1) as nat) <= b < vstd::arithmetic::power2::pow2(
            r as nat,
        ),
{
    let z: u32 = b.leading_zeros();
    proof {
        vstd::std_specs::bits::axiom_u8_leading_zeros(b);
        let k = (8 - z) as u8;
        let l = z as u8;
        assert(b < (1u16 << k as u16) && b >= (1u16 << ((k - 1) as u16))) by (bit_vector)
            requires
                l <= 7u8,
                k == 8u8 - l,
                (b >> ((7u8 - l) as u8)) & 1u8 != 0u8,
                b >> ((8u8 - l) as u8) == 0u8,
        ;
        vstd::arithmetic::power2::lemma2_to64();
        vstd::bits::lemma_u16_shl_is_mul(1u16, k as u16);
        vstd::bits::lemma_u16_shl_is_mul(1u16, (k - 1) as u16);
    }
    8 - z as usize
}

/// The position of the highest set bit plus one, or zero.
fn scalar_bits(bytes: &[u8; 32]) -> (r: usize)
    ensures
        r == bit_len(crate::limbs::bytes_value(bytes@)),
        r <= 256,
{
    let mut i: usize = 32;
    while i > 0
        invariant
            i <= 32,
            forall|j: int| i <= j < 32 ==> bytes@[j] == 0,
        decreases i,
    {
        let byte: u8 = bytes[i - 1];
        if byte != 0 {
            let bits: usize = byte_bits(byte);
            proof {
                bytes_value_top(bytes@, i as nat);
                let s = bytes@.take(i as int);
                bytes_value_last(s);
                crate::limbs::le_bytes_of_value(s.drop_last());
                pow256_is_pow2((i - 1) as nat);
                let p = crate::limbs::pow256((i - 1) as nat) as int;
                let v = crate::limbs::bytes_value(s) as int;
                let low = crate::limbs::bytes_value(s.drop_last()) as int;
                let b = byte as int;
                let lo = vstd::arithmetic::power2::pow2((bits - 1) as nat) as int;
                let hi = vstd::arithmetic::power2::pow2(bits as nat) as int;
                assert(v == low + p * b);
                assert(p * lo <= v && v < p * hi) by (nonlinear_arith)
                    requires
                        v == low + p * b,
                        0 <= low < p,
                        lo <= b,
                        b < hi,
                ;
                vstd::arithmetic::power2::lemma_pow2_adds((8 * (i - 1)) as nat, (bits - 1) as nat);
                vstd::arithmetic::power2::lemma_pow2_adds((8 * (i - 1)) as nat, bits as nat);
                bit_len_is(v as nat, (8 * (i - 1) + bits) as nat);
            }
            return (i - 1) * 8 + bits;
        }
        i = i - 1;
    }
    proof {
        zero_bytes_value(bytes@);
    }
    0
}

/// Computes the maximum number of significant bits across all scalar byte arrays.
/// Returns the position of the highest set bit + 1, or 1 if all scalars are zero.
pub fn compute_max_scalar_bits(scalars: &[[u8; 32]]) -> (r: usize)
    ensures
        r == max_bits(scalar_values(scalars@)),
        1 <= r <= 256,
{
    let ghost values = scalar_values(scalars@);
    let mut highest: usize = 1;
    let mut i: usize = 0;
    while i < scalars.len()
        invariant
            i <= scalars@.len(),
            values == scalar_values(scalars@),
            highest == max_bits(values.take(i as int)),
            1 <= highest <= 256,
        decreases scalars@.len() - i,
    {
        let bits: usize = scalar_bits(&scalars[i]);
        if bits > highest {
            highest = bits;
        }
        assert(values.take(i + 1).drop_last() =~= values.take(i as int));
        i = i + 1;
    }
    assert(values.take(i as int) =~= values);
    highest
}

/// Every number is below two to the power of the number of bits, and unless that is one, some
/// number needs all the bits.
pub proof fn max_bits_tight(values: Seq<nat>)
    ensures
        max_bits(values) >= 1,
        forall|i: int|
            0 <= i < values.len() ==> (#[trigger] values[i]) < vstd::arithmetic::power2::pow2(
                max_bits(values),
            ),
        max_bits(values) == 1 || exists|i: int|
            0 <= i < values.len() && (#[trigger] values[i]) >= vstd::arithmetic::power2::pow2(
                (max_bits(values) - 1) as nat,
            ),
    decreases values.len(),
{
    if values.len() > 0 {
        let rest = values.drop_last();
        let v = values.last();
        max_bits_tight(rest);
        bit_len_bounds(v);
        let m = max_bits(values);
        if max_bits(rest) < m {
            vstd::arithmetic::power2::lemma_pow2_strictly_increases(max_bits(rest), m);
        }
        if bit_len(v) < m {
            vstd::arithmetic::power2::lemma_pow2_strictly_increases(bit_len(v), m);
        }
        assert forall|i: int| 0 <= i < values.len() implies (#[trigger] values[i])
            < vstd::arithmetic::power2::pow2(m) by {
            if i < rest.len() {
                assert(rest[i] == values[i]);
            }
        }
        if m > 1 {
            if max_bits(rest) == m {
                let i = choose|i: int|
                    0 <= i < rest.len() && (#[trigger] rest[i]) >= vstd::arithmetic::power2::pow2(
                        (m - 1) as nat,
                    );
                assert(rest[i] == values[i]);
            } else {
                assert(values[values.len() - 1] == values.last());
            }
        }
    }
}

} // verus!
