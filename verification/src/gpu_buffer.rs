//! GPU buffer management for persistent data across operations.
//!
//! This module provides utilities for keeping polynomial data on the GPU
//! between operations, avoiding unnecessary CPU-GPU transfers.
//!
//! [`GpuBufferCache`] is a cache that tracks which polynomials have been uploaded.

use std::collections::hash_map::DefaultHasher;
use std::collections::HashMap;
use std::hash::Hasher;

use vstd::prelude::*;
use vstd::std_specs::hash::DefaultHasherAdditionalSpecFns;

use crate::field::PrimeField;

verus! {

/// Hands out the numbers of buffers, one after the other.
#[derive(Debug)]
pub struct BufferIds {
    next: u64,
}

impl BufferIds {
    /// The number that is handed out next.
    pub closed spec fn spec_next(&self) -> u64 {
        self.next
    }

    /// Starts at zero.
    pub fn new() -> (r: Self)
        ensures
            r.spec_next() == 0,
    {
        BufferIds { next: 0 }
    }

    /// Starts at a given number.
    pub fn starting_at(next: u64) -> (r: Self)
        ensures
            r.spec_next() == next,
    {
        BufferIds { next }
    }

    /// The number that is handed out next.
    pub fn next(&self) -> (r: u64)
        ensures
            r == self.spec_next(),
    {
        self.next
    }
}

/// Unique identifier for a cached buffer.
#[derive(Debug, Clone, Copy, PartialEq, Eq, Hash, Structural)]
pub struct GpuBufferId(u64);

impl GpuBufferId {
    /// The number behind the identifier.
    pub closed spec fn number(&self) -> u64 {
        self.0
    }

    /// Generate a new unique buffer ID.
    ///
    /// The numbers wrap around after the last one.
    pub fn new(ids: &mut BufferIds) -> (r: Self)
        ensures
            r.number() == old(ids).spec_next(),
            final(ids).spec_next() == (if old(ids).spec_next() == u64::MAX {
                0
            } else {
                (old(ids).spec_next() + 1) as u64
            }),
    {
        let id = GpuBufferId(ids.next);
        ids.next = ids.next.wrapping_add(1);
        id
    }
}

/// The number of the `k`th identifier after one with number `first`.
pub open spec fn nth_id(first: u64, k: nat) -> int {
    (first + k) % 0x1_0000_0000_0000_0000
}

/// Handing out one identifier moves on by one.
pub proof fn nth_id_step(first: u64, k: nat)
    ensures
        nth_id(first, k + 1) == (if nth_id(first, k) == u64::MAX {
            0
        } else {
            nth_id(first, k) + 1
        }),
{
}

/// Identifiers that are handed out in a row differ, unless more than `2^64` are.
pub proof fn ids_are_distinct(first: u64, j: nat, k: nat)
    requires
        j < k,
        k - j < 0x1_0000_0000_0000_0000,
    ensures
        nth_id(first, j) != nth_id(first, k),
{
    let m = 0x1_0000_0000_0000_0000int;
    if nth_id(first, j) == nth_id(first, k) {
        let a = first + j;
        let b = first + k;
        assert(a / m <= b / m);
        assert(b - a == (b / m - a / m) * m);
        assert(b / m - a / m == 0 || (b / m - a / m) * m >= m);
        assert(false);
    }
}

/// Metadata about a cached polynomial buffer.
#[derive(Debug, Clone, Copy, PartialEq, Eq, Structural)]
pub struct BufferMetadata {
    /// Unique identifier for this buffer.
    pub id: GpuBufferId,
    /// Length of the polynomial (number of field elements).
    pub len: usize,
    /// Hash of the polynomial data for verification.
    pub hash: u64,
}

/// How far apart the elements are that are hashed.
pub open spec fn sample_step(len: nat) -> nat {
    crate::arith::max_of(len as int, 1) as nat / 8 + 1
}

/// What is hashed of the elements from `at` on: the decimal digits of every `step`th element, each
/// followed by a byte that ends a string.
pub open spec fn sample_writes<F: PrimeField>(data: Seq<F>, at: nat, step: nat) -> Seq<Seq<u8>>
    decreases crate::arith::max_of(data.len() - at, 0),
{
    if at >= data.len() || step == 0 {
        Seq::empty()
    } else {
        seq![
            vstd::utf8::encode_utf8(crate::field::decimal(data[at as int].value())),
            seq![0xffu8],
        ] + sample_writes(data, at + step, step)
    }
}

/// What is hashed of a polynomial: its length, and a sample of its elements.
pub open spec fn hash_writes<F: PrimeField>(data: Seq<F>) -> Seq<Seq<u8>> {
    seq![crate::limbs::le_bytes(data.len(), 8)] + sample_writes(
        data,
        0,
        sample_step(data.len()),
    )
}

/// The hash of a polynomial.
pub open spec fn data_hash<F: PrimeField>(data: Seq<F>) -> u64 {
    DefaultHasher::spec_finish(hash_writes(data))
}

/// The bytes of a length, lowest first.
fn len_bytes(len: usize) -> (r: [u8; 8])
    ensures
        r@ == crate::limbs::le_bytes(len as nat, 8),
{
    let mut out: [u8; 8] = [0u8; 8];
    let mut v: u64 = len as u64;
    let mut k: usize = 0;
    assert(len as nat / 1 == len);
    while k < 8
        invariant
            k <= 8,
            v == (len as nat) / crate::limbs::pow256(k as nat),
            forall|j: int|
                0 <= j < k ==> out@[j] == crate::limbs::le_bytes(len as nat, 8)[j],
        decreases 8 - k,
    {
        proof {
            crate::limbs::le_bytes_index(len as nat, 8, k as nat);
            crate::limbs::pow256_adds(k as nat, 1);
            vstd::arithmetic::div_mod::lemma_div_denominator(
                len as int,
                crate::limbs::pow256(k as nat) as int,
                256,
            );
            let p = crate::limbs::pow256(k as nat) as int;
            assert(p * 256 == 256 * p);
        }
        out[k] = (v % 256) as u8;
        v = v / 256;
        k = k + 1;
    }
    proof {
        crate::limbs::le_bytes_len(len as nat, 8);
        assert(out@ =~= crate::limbs::le_bytes(len as nat, 8));
    }
    out
}

/// The hash of a polynomial: of its length, and of a sample of its elements for quick
/// identification.
pub fn hash_slice<F: PrimeField>(data: &[F]) -> (r: u64)
    ensures
        r == data_hash(data@),
{
    let mut hasher = DefaultHasher::new();
    let len = len_bytes(data.len());
    hasher.write(len.as_slice());
    if data.len() > 0 {
        let step: usize = data.len() / 8 + 1;
        let ghost start = hasher@;
        let mut i: usize = 0;
        let mut going: bool = true;
        let ghost mut done: Seq<Seq<u8>> = Seq::empty();
        assert(start + done =~= start);
        while going
            invariant
                going ==> i < data@.len(),
                step == sample_step(data@.len()),
                hasher@ == start + done,
                going ==> done + sample_writes(data@, i as nat, step as nat) == sample_writes(
                    data@,
                    0,
                    step as nat,
                ),
                !going ==> done == sample_writes(data@, 0, step as nat),
            decreases data@.len() - i + if going {
                1int
            } else {
                0
            },
        {
            let text = data[i].to_decimal();
            hasher.write(text.as_str().as_bytes());
            hasher.write([0xffu8].as_slice());
            proof {
                let two = seq![
                    vstd::utf8::encode_utf8(crate::field::decimal(data@[i as int].value())),
                    seq![0xffu8],
                ];
                assert([0xffu8]@ =~= seq![0xffu8]);
                assert(hasher@ =~= start + (done + two));
                assert(done + (two + sample_writes(data@, (i + step) as nat, step as nat)) =~= (done
                    + two) + sample_writes(data@, (i + step) as nat, step as nat));
                done = done + two;
            }
            if step < data.len() - i {
                i = i + step;
            } else {
                proof {
                    assert(sample_writes(data@, (i + step) as nat, step as nat) =~= Seq::empty());
                    assert(done + sample_writes(data@, (i + step) as nat, step as nat) =~= done);
                }
                going = false;
            }
        }
    }
    assert(hasher@ =~= hash_writes(data@));
    hasher.finish()
}

impl BufferMetadata {
    /// Create metadata for a polynomial slice.
    pub fn from_slice<F: PrimeField>(data: &[F], ids: &mut BufferIds) -> (r: Self)
        ensures
            r.id.number() == old(ids).spec_next(),
            final(ids).spec_next() == (if old(ids).spec_next() == u64::MAX {
                0
            } else {
                (old(ids).spec_next() + 1) as u64
            }),
            r.len == data@.len(),
            r.hash == data_hash(data@),
    {
        let hash: u64 = hash_slice(data);
        BufferMetadata { id: GpuBufferId::new(ids), len: data.len(), hash }
    }
}

/// Cache for tracking uploaded polynomial data.
///
/// This cache maintains metadata about polynomials that have been uploaded to GPU,
/// allowing operations to check if data is already available.
///
/// Note: This is a CPU-side tracking structure. The actual GPU buffers are managed
/// by whoever runs the sessions.
#[derive(Debug)]
pub struct GpuBufferCache {
    cached: HashMap<u64, BufferMetadata>,
}

impl View for GpuBufferCache {
    type V = Map<u64, BufferMetadata>;

    /// Cached polynomial metadata keyed by hash.
    closed spec fn view(&self) -> Map<u64, BufferMetadata> {
        self.cached@
    }
}

impl Default for GpuBufferCache {
    /// An empty cache.
    fn default() -> (r: Self)
        ensures
            r@ == Map::<u64, BufferMetadata>::empty(),
    {
        GpuBufferCache::new()
    }
}

impl GpuBufferCache {
    /// Create a new empty cache.
    pub fn new() -> (r: Self)
        ensures
            r@ == Map::<u64, BufferMetadata>::empty(),
    {
        GpuBufferCache { cached: HashMap::new() }
    }

    /// Register a polynomial as cached.
    pub fn register<F: PrimeField>(&mut self, data: &[F], ids: &mut BufferIds) -> (r:
        BufferMetadata)
        ensures
            r.id.number() == old(ids).spec_next(),
            final(ids).spec_next() == (if old(ids).spec_next() == u64::MAX {
                0
            } else {
                (old(ids).spec_next() + 1) as u64
            }),
            r.len == data@.len(),
            r.hash == data_hash(data@),
            final(self)@ == old(self)@.insert(r.hash, r),
            final(self)@.dom().finite(),
            final(self)@.len() == old(self)@.len() + (if old(self)@.contains_key(r.hash) {
                0int
            } else {
                1
            }),
    {
        let metadata = BufferMetadata::from_slice(data, ids);
        self.cached.insert(metadata.hash, metadata);
        metadata
    }

    /// Check if a polynomial is cached. The metadata that is made for the question takes an
    /// identifier, cached or not.
    pub fn is_cached<F: PrimeField>(&self, data: &[F], ids: &mut BufferIds) -> (r: bool)
        ensures
            r == self@.contains_key(data_hash(data@)),
            final(ids).spec_next() == (if old(ids).spec_next() == u64::MAX {
                0
            } else {
                (old(ids).spec_next() + 1) as u64
            }),
    {
        let metadata = BufferMetadata::from_slice(data, ids);
        self.cached.contains_key(&metadata.hash)
    }

    /// Clear the cache.
    pub fn clear(&mut self)
        ensures
            final(self)@ == Map::<u64, BufferMetadata>::empty(),
    {
        self.cached.clear();
    }

    /// Number of cached entries.
    pub fn len(&self) -> (r: usize)
        ensures
            r == self@.len(),
    {
        self.cached.len()
    }

    /// Check if cache is empty.
    pub fn is_empty(&self) -> (r: bool)
        ensures
            r == (self@.len() == 0),
    {
        self.cached.len() == 0
    }
}

/// A registered polynomial is cached, and so is what was cached before. There is one entry more,
/// unless the polynomial was cached already. Registering it again leaves the number of entries as
/// it is, and gives it another identifier.
pub proof fn registered_is_cached<F: PrimeField>(
    before: Map<u64, BufferMetadata>,
    data: Seq<F>,
    next: u64,
    first: BufferMetadata,
    again: BufferMetadata,
    other: Seq<F>,
)
    requires
        before.dom().finite(),
        first.hash == data_hash(data),
        again.hash == data_hash(data),
        first.id.number() == nth_id(next, 0),
        again.id.number() == nth_id(next, 1),
    ensures
        ({
            let once = before.insert(first.hash, first);
            let twice = once.insert(again.hash, again);
            &&& once.contains_key(data_hash(data))
            &&& before.contains_key(data_hash(other)) ==> once.contains_key(data_hash(other))
            &&& once.contains_key(data_hash(other)) ==> before.contains_key(data_hash(other))
                || data_hash(other) == data_hash(data)
            &&& once.len() == before.len() + (if before.contains_key(data_hash(data)) {
                0int
            } else {
                1
            })
            &&& twice.len() == once.len()
            &&& twice.dom() == once.dom()
            &&& first.id != again.id
        }),
{
    ids_are_distinct(next, 0, 1);
    let once = before.insert(first.hash, first);
    assert(once.insert(again.hash, again).dom() =~= once.dom());
}

/// The sample from `at` on, one element after the other.
proof fn sample_in_steps<F: PrimeField>(data: Seq<F>, at: nat, step: nat)
    requires
        step > 0,
    ensures
        sample_writes(data, at, step) == sampled(
            data,
            at,
            step,
            crate::arith::ceil_div(
                crate::arith::max_of(data.len() - at, 0),
                step as int,
            ) as nat,
        ),
    decreases crate::arith::max_of(data.len() - at, 0),
{
    let left = crate::arith::max_of(data.len() - at, 0);
    let n = crate::arith::ceil_div(left, step as int);
    crate::arith::ceil_div_least(left, step as int);
    if left > 0 {
        let next = crate::arith::max_of(data.len() - (at + step), 0);
        let m = crate::arith::ceil_div(next, step as int);
        crate::arith::ceil_div_least(next, step as int);
        assert(n == m + 1) by (nonlinear_arith)
            requires
                n * step >= left,
                (n - 1) * step < left,
                n >= 1,
                m >= 0,
                m * step >= next,
                (m - 1) * step < next,
                left > 0,
                step > 0,
                next == (if left >= step { left - step } else { 0 }),
                next == 0 ==> m == 0,
        ;
        sample_in_steps(data, at + step, step);
        let rest = sampled(data, at + step, step, m as nat);
        let all = sampled(data, at, step, n as nat);
        assert forall|i: int| 0 <= i < rest.len() implies rest[i] == all[i + 2] by {
            let k = i / 2;
            assert((i + 2) / 2 == k + 1);
            assert((k + 1) * step == k * step + step) by (nonlinear_arith);
        }
        assert(0 * step == 0);
        assert(all =~= seq![
            vstd::utf8::encode_utf8(crate::field::decimal(data[at as int].value())),
            seq![0xffu8],
        ] + rest);
    } else {
        assert(sample_writes(data, at, step) =~= sampled(data, at, step, 0));
    }
}

/// The decimal digits of `n` elements that lie `step` apart, from `at` on, each followed by a byte
/// that ends a string.
pub open spec fn sampled<F: PrimeField>(data: Seq<F>, at: nat, step: nat, n: nat) -> Seq<Seq<u8>> {
    Seq::new(
        2 * n,
        |i: int|
            if i % 2 == 0 {
                vstd::utf8::encode_utf8(
                    crate::field::decimal(data[at + (i / 2) * step].value()),
                )
            } else {
                seq![0xffu8]
            },
    )
}

/// The hash of a polynomial is over its length, its first element and every `step`th one after it, to
/// the end. The step is such that the polynomial has fewer than eight steps, and eight of the next
/// smaller one: so at most eight elements are looked at, and no two of those that are looked at are
/// further apart than an eighth of the polynomial and one.
pub proof fn hash_looks_at_eighths<F: PrimeField>(data: &[F], r: u64, step: nat, n: nat)
    requires
        call_ensures(hash_slice::<F>, (data,), r),
        data@.len() > 0,
        8 * (step - 1) <= data@.len() < 8 * step,
        (n - 1) * step < data@.len() <= n * step,
    ensures
        n <= 8,
        r == DefaultHasher::spec_finish(
            seq![crate::limbs::le_bytes(data@.len(), 8)] + sampled(data@, 0, step, n),
        ),
{
    let len = data@.len() as int;
    let s = step as int;
    let k = n as int;
    assert(sample_step(data@.len()) == step);
    crate::arith::ceil_div_least(len, s);
    let c = crate::arith::ceil_div(len, s);
    assert(c == k) by (nonlinear_arith)
        requires
            c * s >= len,
            (c - 1) * s < len,
            (k - 1) * s < len <= k * s,
            s > 0,
    ;
    assert(k <= 8) by (nonlinear_arith)
        requires
            (k - 1) * s < len,
            len < 8 * s,
            s > 0,
    ;
    sample_in_steps(data@, 0, step);
}

} // verus!
