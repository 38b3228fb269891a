//! A device on which the kernels of multiexponentiations do what they are for.
//!
//! It says what a command may leave in the buffers of a device, from the command and from what was
//! there before. A kernel that gets fewer threads than it has items, or a buffer that is too short,
//! may leave anything in the buffers that it writes. Where the order of the threads matters, as it
//! does when pairs are sorted, every order counts.

use vstd::prelude::*;

use crate::field::PrimeField;
use crate::field_device::FieldDevice;
use crate::group::Group;
use crate::session::{Arg, Cmd, DataView, Elem, KernelId};

verus! {

/// What is in the buffers of a device, by slot, and what has been handed to the host.
pub struct MsmDevice<P> {
    /// Field elements and scalars.
    pub numbers: FieldDevice,
    /// The slots of the scalars that are in standard form.
    pub standard: Set<usize>,
    /// Signed digits.
    pub digits: Map<usize, Seq<int>>,
    /// Words.
    pub words: Map<usize, Seq<u32>>,
    /// Bases and points.
    pub points: Map<usize, Seq<P>>,
    /// The words that have been handed to the host.
    pub words_out: Seq<Seq<u32>>,
    /// The points that have been handed to the host.
    pub points_out: Seq<Seq<P>>,
}

/// The key of a pair that belongs to no bucket.
pub const NO_BUCKET: u32 = 0xffff_ffff;

/// What marks a base that is subtracted.
pub const NEGATIVE: u32 = 0x8000_0000;

/// What a value of a pair adds to its bucket.
pub open spec fn signed_base<G: Group>(
    act: spec_fn(int, G::Point) -> G::Point,
    bases: Seq<G::Point>,
    v: u32,
) -> G::Point {
    if v >= NEGATIVE {
        act(-1, bases[v - NEGATIVE])
    } else {
        bases[v as int]
    }
}

/// The sum of `count` sorted values.
pub open spec fn bucket_sum<G: Group>(
    act: spec_fn(int, G::Point) -> G::Point,
    bases: Seq<G::Point>,
    sorted: Seq<u32>,
    start: int,
    count: nat,
) -> G::Point {
    crate::group::sum::<G>(
        Seq::new(count, |j: int| signed_base::<G>(act, bases, sorted[start + j])),
    )
}

/// How many of the first `n` keys are `b`.
pub open spec fn occurrences(keys: Seq<u32>, b: int, n: nat) -> nat
    decreases n,
{
    if n == 0 {
        0
    } else {
        occurrences(keys, b, (n - 1) as nat) + if keys[n - 1] == b {
            1nat
        } else {
            0
        }
    }
}

/// The sum of the first `n` counts.
pub open spec fn count_before(counts: Seq<u32>, n: nat) -> nat
    decreases n,
{
    if n == 0 {
        0
    } else {
        count_before(counts, (n - 1) as nat) + counts[n - 1] as nat
    }
}

/// Whether `ids` starts with the `k` buckets among the first `n` that are not empty, each once.
pub open spec fn lists_nonempty(counts: Seq<u32>, ids: Seq<u32>, k: nat, n: nat) -> bool {
    &&& k <= n
    &&& forall|t: int| 0 <= t < k ==> (#[trigger] ids[t]) < n && counts[ids[t] as int] > 0
    &&& forall|s: int, t: int| 0 <= s < t < k ==> (#[trigger] ids[s]) != (#[trigger] ids[t])
    &&& forall|b: int|
        0 <= b < n && (#[trigger] counts[b]) > 0 ==> exists|t: int|
            0 <= t < k && #[trigger] ids[t] == b
}

/// Whether pairs have been put to their places: each pair of a bucket to a place of its own, counted
/// from the offset of the bucket. `place` says where each pair went, and `winner` which of the pairs
/// that went to the same place was the last.
pub open spec fn scattered(
    keys: Seq<u32>,
    values: Seq<u32>,
    offsets: Seq<u32>,
    n: nat,
    sorted: Seq<u32>,
    place: spec_fn(int) -> int,
    winner: spec_fn(int) -> int,
) -> bool {
    &&& forall|i: int|
        0 <= i < n && keys[i] != NO_BUCKET ==> offsets[keys[i] as int] <= #[trigger] place(i)
            < offsets[keys[i] as int] + occurrences(keys, keys[i] as int, n)
    &&& forall|i: int, j: int|
        0 <= i < j < n && keys[i] != NO_BUCKET && keys[i] == keys[j] ==> #[trigger] place(i)
            != #[trigger] place(j)
    &&& forall|i: int|
        0 <= i < n && keys[i] != NO_BUCKET ==> {
            let q = #[trigger] place(i);
            let j = winner(q);
            &&& 0 <= j < n
            &&& keys[j] != NO_BUCKET
            &&& place(j) == q
            &&& 0 <= q < sorted.len() ==> sorted[q] == values[j]
        }
}

/// The windows combined by Horner's method, from the last one down to window `i`. The last window
/// has as many bits as the scalars have left for it.
pub open spec fn window_horner<G: Group>(
    windows: Seq<G::Point>,
    num_windows: nat,
    window_size: nat,
    bits: nat,
    i: nat,
) -> G::Point
    decreases num_windows - i,
{
    if i >= num_windows {
        G::identity()
    } else {
        G::plus(
            crate::group::doubled::<G>(
                window_horner::<G>(windows, num_windows, window_size, bits, i + 1),
                crate::arith::min_of(window_size as int, bits - i * window_size) as nat,
            ),
            windows[i as int],
        )
    }
}

/// The buckets that a group of threads reduces: chunk `g % chunks` of window `g / chunks`, with
/// `size` buckets in a chunk.
pub open spec fn group_buckets<P>(
    buckets: Seq<P>,
    per_window: nat,
    chunks: nat,
    size: nat,
    g: int,
) -> Seq<P> {
    let w = g / (chunks as int);
    let i = g % (chunks as int);
    Seq::new(
        (crate::arith::min_of((i + 1) * size, per_window as int) - i * size) as nat,
        |l: int| buckets[w * per_window + (i * size + l)],
    )
}

/// What the threads of group `g` have to add up: their share of `n` terms for window `w`.
pub open spec fn thread_sum<G: Group>(
    act: spec_fn(int, G::Point) -> G::Point,
    bases: Seq<G::Point>,
    digits: Seq<int>,
    n: nat,
    groups: nat,
    num_windows: nat,
    g: int,
    w: int,
) -> G::Point {
    let per = crate::arith::ceil_div(n as int, groups as int);
    let first = g * per;
    crate::group::sum::<G>(
        Seq::new(
            crate::arith::max_of(0, crate::arith::min_of(first + per, n as int) - first) as nat,
            |j: int| act(digits[(first + j) * num_windows + w], bases[first + j]),
        ),
    )
}

/// The sum of the entries of a table that a scalar of some bits picks, one of each window.
pub open spec fn table_sum<G: Group>(
    table: Seq<G::Point>,
    scalar: nat,
    window: nat,
    num_windows: nat,
    bits: nat,
) -> G::Point {
    let v = scalar % vstd::arithmetic::power2::pow2(bits);
    let size = vstd::arithmetic::power2::pow2(window);
    crate::group::sum::<G>(
        Seq::new(
            num_windows,
            |o: int|
                table[o * size + (v / vstd::arithmetic::power2::pow2((o * window) as nat)) % size],
        ),
    )
}

/// Whether at most the digits in a slot have changed.
pub open spec fn wrote_digits<P>(d: MsmDevice<P>, e: MsmDevice<P>, slot: usize) -> bool {
    &&& e == (MsmDevice {
        numbers: e.numbers,
        standard: e.standard,
        digits: d.digits.insert(slot, e.digits[slot]),
        ..d
    })
    &&& e.digits[slot].len() == d.digits[slot].len()
}

/// Whether at most the words in a slot have changed.
pub open spec fn wrote_words<P>(d: MsmDevice<P>, e: MsmDevice<P>, slot: usize) -> bool {
    &&& e == (MsmDevice {
        numbers: e.numbers,
        standard: e.standard,
        words: d.words.insert(slot, e.words[slot]),
        ..d
    })
    &&& e.words[slot].len() == d.words[slot].len()
}

/// Whether at most the words in two slots have changed.
pub open spec fn wrote_two<P>(d: MsmDevice<P>, e: MsmDevice<P>, a: usize, b: usize) -> bool {
    &&& e == (MsmDevice {
        numbers: e.numbers,
        standard: e.standard,
        words: d.words.insert(a, e.words[a]).insert(b, e.words[b]),
        ..d
    })
    &&& e.words[a].len() == d.words[a].len()
    &&& e.words[b].len() == d.words[b].len()
}

/// Whether at most the words in three slots have changed.
pub open spec fn wrote_three<P>(
    d: MsmDevice<P>,
    e: MsmDevice<P>,
    a: usize,
    b: usize,
    c: usize,
) -> bool {
    &&& e == (MsmDevice {
        numbers: e.numbers,
        standard: e.standard,
        words: d.words.insert(a, e.words[a]).insert(b, e.words[b]).insert(c, e.words[c]),
        ..d
    })
    &&& e.words[a].len() == d.words[a].len()
    &&& e.words[b].len() == d.words[b].len()
    &&& e.words[c].len() == d.words[c].len()
}

/// Whether at most the points in a slot have changed.
pub open spec fn wrote_points<P>(d: MsmDevice<P>, e: MsmDevice<P>, slot: usize) -> bool {
    &&& e == (MsmDevice {
        numbers: e.numbers,
        standard: e.standard,
        points: d.points.insert(slot, e.points[slot]),
        ..d
    })
    &&& e.points[slot].len() == d.points[slot].len()
}

/// Whether at most the points in two slots have changed.
pub open spec fn wrote_both<P>(d: MsmDevice<P>, e: MsmDevice<P>, a: usize, b: usize) -> bool {
    &&& e == (MsmDevice {
        numbers: e.numbers,
        standard: e.standard,
        points: d.points.insert(a, e.points[a]).insert(b, e.points[b]),
        ..d
    })
    &&& e.points[a].len() == d.points[a].len()
    &&& e.points[b].len() == d.points[b].len()
}

/// Whether there is another buffer in a slot, or none any more.
pub open spec fn replaced<P>(d: MsmDevice<P>, e: MsmDevice<P>, slot: usize) -> bool {
    e == (MsmDevice {
        numbers: e.numbers,
        standard: e.standard,
        digits: d.digits.insert(slot, e.digits[slot]),
        words: d.words.insert(slot, e.words[slot]),
        points: d.points.insert(slot, e.points[slot]),
        ..d
    })
}

/// Whether at most numbers have changed.
pub open spec fn kept<P>(d: MsmDevice<P>, e: MsmDevice<P>) -> bool {
    e == (MsmDevice { numbers: e.numbers, standard: e.standard, ..d })
}

/// The slots of the scalars that are in standard form after a command.
pub open spec fn forms<F, B>(standard: Set<usize>, c: Cmd<F, B>) -> Set<usize> {
    match c {
        Cmd::Alloc { slot, .. } => standard.remove(slot),
        Cmd::Upload { slot, data } => match data {
            DataView::Exponents(_) => standard.insert(slot),
            _ => standard.remove(slot),
        },
        Cmd::Write { slot, data } => match data {
            DataView::Scalars(_) => standard.remove(slot),
            _ => standard,
        },
        Cmd::Launch { kernel, args, .. } => match kernel {
            KernelId::ToScalarBytes => standard.insert(crate::field_device::slot_arg(args, 1)),
            KernelId::ToScalarBytesOffset => standard.insert(
                crate::field_device::slot_arg(args, 1),
            ),
            KernelId::FixVarToScalar => standard.insert(crate::field_device::slot_arg(args, 1)),
            _ => if crate::field_device::msm_kernel(kernel) {
                standard
            } else {
                Set::new(|s: usize| standard.contains(s) && !args.contains(Arg::Buffer(s)))
            },
        },
        Cmd::Read { .. } => standard,
        Cmd::Free { slot } => standard.remove(slot),
    }
}

/// What a kernel on `global` groups of `local` threads may leave on the device.
pub open spec fn launched<G: Group>(
    act: spec_fn(int, G::Point) -> G::Point,
    d: MsmDevice<G::Point>,
    kernel: KernelId,
    global: nat,
    local: nat,
    args: Seq<Arg>,
    e: MsmDevice<G::Point>,
) -> bool {
    let threads = global * local;
    let s0 = crate::field_device::slot_arg(args, 0);
    let s1 = crate::field_device::slot_arg(args, 1);
    let s2 = crate::field_device::slot_arg(args, 2);
    let s3 = crate::field_device::slot_arg(args, 3);
    let s4 = crate::field_device::slot_arg(args, 4);
    let s5 = crate::field_device::slot_arg(args, 5);
    match kernel {
        KernelId::PreprocessSignedDigits => {
            let n = crate::field_device::word_arg(args, 2);
            let nw = crate::field_device::word_arg(args, 3);
            let ws = crate::field_device::word_arg(args, 4);
            let scalars = d.numbers.slots[s0];
            &&& wrote_digits(d, e, s1)
            &&& threads >= n && d.standard.contains(s0) && scalars.len() >= n
                && d.digits[s1].len() >= n * nw ==> forall|i: int|
                0 <= i < n * nw ==> #[trigger] e.digits[s1][i] == crate::booth::signed_digit(
                    scalars[i / (nw as int)] as nat,
                    ws,
                    (i % (nw as int)) as nat,
                )
        },
        KernelId::MultiexpSigned => {
            let n = crate::field_device::word_arg(args, 4);
            let groups = crate::field_device::word_arg(args, 5);
            let nw = crate::field_device::word_arg(args, 6);
            let ws = crate::field_device::word_arg(args, 7);
            let half = vstd::arithmetic::power2::pow2((ws - 1) as nat);
            let digits = d.digits[s3];
            &&& wrote_both(d, e, s1, s2)
            &&& threads >= groups * nw && d.points[s1].len() >= groups * nw * half
                && d.points[s2].len() >= groups * nw && d.points[s0].len() >= n && digits.len() >= n
                * nw && (forall|i: int|
                0 <= i < n * nw ==> -half <= #[trigger] digits[i] <= half) ==> forall|q: int|
                0 <= q < groups * nw ==> #[trigger] e.points[s2][q] == thread_sum::<G>(
                    act,
                    d.points[s0],
                    digits,
                    n,
                    groups,
                    nw,
                    q / (nw as int),
                    q % (nw as int),
                )
        },
        KernelId::DecomposeToPairs => {
            let n = crate::field_device::word_arg(args, 3);
            let nw = crate::field_device::word_arg(args, 4);
            let size = crate::field_device::word_arg(args, 5);
            let digits = d.digits[s0];
            &&& wrote_two(d, e, s1, s2)
            &&& threads >= n * nw && n <= NEGATIVE && digits.len() >= n * nw && d.words[s1].len()
                >= n * nw && d.words[s2].len() >= n * nw ==> forall|i: int|
                0 <= i < n * nw ==> {
                    let x = #[trigger] digits[i];
                    let b = i / (nw as int);
                    let w = i % (nw as int);
                    &&& x == 0 ==> e.words[s1][i] == NO_BUCKET
                    &&& x > 0 ==> e.words[s1][i] == (w * size + x - 1) as u32 && e.words[s2][i]
                        == b as u32
                    &&& x < 0 ==> e.words[s1][i] == (w * size - x - 1) as u32 && e.words[s2][i]
                        == (b + NEGATIVE) as u32
                }
        },
        KernelId::CountBuckets => {
            let n = crate::field_device::word_arg(args, 2);
            let keys = d.words[s0];
            &&& wrote_words(d, e, s1)
            &&& threads >= n && keys.len() >= n ==> forall|b: int|
                0 <= b < d.words[s1].len() ==> #[trigger] e.words[s1][b] == (d.words[s1][b]
                    + occurrences(keys, b, n)) as u32
        },
        KernelId::PrefixSum => {
            let n = crate::field_device::word_arg(args, 4);
            let counts = d.words[s0];
            &&& wrote_three(d, e, s1, s2, s3)
            &&& threads >= 1 && counts.len() >= n && d.words[s1].len() >= n && d.words[s2].len()
                >= n && d.words[s3].len() >= 1 ==> {
                &&& forall|b: int|
                    0 <= b < n ==> #[trigger] e.words[s1][b] == count_before(
                        counts,
                        b as nat,
                    ) as u32
                &&& lists_nonempty(counts, e.words[s2], e.words[s3][0] as nat, n)
            }
        },
        KernelId::ScatterToSorted => {
            let n = crate::field_device::word_arg(args, 4);
            &&& wrote_two(d, e, s2, s3)
            &&& threads >= n && d.words[s0].len() >= n && d.words[s1].len() >= n ==> exists|
                place: spec_fn(int) -> int,
                winner: spec_fn(int) -> int,
            | #[trigger]
                scattered(
                    d.words[s0],
                    d.words[s1],
                    d.words[s2],
                    n,
                    e.words[s3],
                    place,
                    winner,
                )
        },
        KernelId::AccumulateSortedBuckets => {
            let n = crate::field_device::word_arg(args, 6);
            let ids = d.words[s4];
            &&& wrote_points(d, e, s5)
            &&& threads >= n && ids.len() >= n ==> {
                &&& forall|t: int|
                    0 <= t < n ==> e.points[s5][(#[trigger] ids[t]) as int] == bucket_sum::<G>(
                        act,
                        d.points[s0],
                        d.words[s1],
                        d.words[s2][ids[t] as int] as int,
                        d.words[s3][ids[t] as int] as nat,
                    )
                &&& forall|b: int|
                    0 <= b < d.points[s5].len() && (forall|t: int|
                        0 <= t < n ==> #[trigger] ids[t] != b) ==> #[trigger] e.points[s5][b]
                        == d.points[s5][b]
            }
        },
        KernelId::AccumulateAllSortedBuckets => {
            let n = crate::field_device::word_arg(args, 5);
            &&& wrote_points(d, e, s4)
            &&& threads >= n && d.points[s4].len() >= n ==> forall|b: int|
                0 <= b < n ==> #[trigger] e.points[s4][b] == bucket_sum::<G>(
                    act,
                    d.points[s0],
                    d.words[s1],
                    d.words[s2][b] as int,
                    d.words[s3][b] as nat,
                )
        },
        KernelId::AccumulateChunked => {
            let n = crate::field_device::word_arg(args, 5);
            let table = d.words[s3];
            &&& wrote_points(d, e, s4)
            &&& threads >= n && table.len() >= 3 * n && d.points[s4].len() >= n ==> forall|k: int|
                0 <= k < n ==> #[trigger] e.points[s4][k] == bucket_sum::<G>(
                    act,
                    d.points[s0],
                    d.words[s1],
                    d.words[s2][table[3 * k] as int] + table[3 * k + 1],
                    table[3 * k + 2] as nat,
                )
        },
        KernelId::ReducePartialBuckets => {
            let n = crate::field_device::word_arg(args, 4);
            let ids = d.words[s1];
            let table = d.words[s2];
            &&& wrote_points(d, e, s3)
            &&& threads >= n && ids.len() >= n && table.len() >= 2 * n ==> {
                &&& forall|t: int|
                    0 <= t < n ==> e.points[s3][(#[trigger] ids[t]) as int] == crate::group::sum::<
                        G,
                    >(
                        d.points[s0].subrange(
                            table[2 * t] as int,
                            table[2 * t] + table[2 * t + 1],
                        ),
                    )
                &&& forall|b: int|
                    0 <= b < d.points[s3].len() && (forall|t: int|
                        0 <= t < n ==> #[trigger] ids[t] != b) ==> #[trigger] e.points[s3][b]
                        == d.points[s3][b]
            }
        },
        KernelId::ReduceBucketsChunked => {
            let size = crate::field_device::word_arg(args, 3);
            let chunks = crate::field_device::word_arg(args, 4);
            let room = match args[5] {
                Arg::LocalPoints(n) => n as nat,
                _ => 0,
            };
            &&& wrote_both(d, e, s1, s2)
            &&& room >= local && d.points[s1].len() >= global && d.points[s2].len() >= global
                ==> forall|g: int|
                0 <= g < global ==> {
                    let mine = #[trigger] group_buckets(d.points[s0], size, chunks, local, g);
                    &&& e.points[s1][g] == crate::group::sum::<G>(
                        crate::sorted_sum::by_position::<G>(mine, 1),
                    )
                    &&& e.points[s2][g] == crate::group::sum::<G>(mine)
                }
        },
        KernelId::CombineChunksToWindows => {
            let n = crate::field_device::word_arg(args, 3);
            let chunks = crate::field_device::word_arg(args, 4);
            let size = crate::field_device::word_arg(args, 5);
            &&& wrote_points(d, e, s2)
            &&& threads >= n && d.points[s2].len() >= n ==> forall|w: int|
                0 <= w < n ==> #[trigger] e.points[s2][w] == crate::group::sum::<G>(
                    Seq::new(
                        chunks,
                        |i: int|
                            G::plus(
                                d.points[s0][w * chunks + i],
                                crate::group::times::<G>(
                                    (i * size) as nat,
                                    d.points[s1][w * chunks + i],
                                ),
                            ),
                    ),
                )
        },
        KernelId::ReduceWindows => {
            &&& wrote_points(d, e, s1)
            &&& threads >= 1 && d.points[s1].len() >= 1 ==> e.points[s1][0] == window_horner::<G>(
                d.points[s0],
                crate::field_device::word_arg(args, 2),
                crate::field_device::word_arg(args, 3),
                crate::field_device::word_arg(args, 4),
                0,
            )
        },
        KernelId::CopyAtOffset => {
            let i = crate::field_device::word_arg(args, 2) as int;
            &&& wrote_points(d, e, s1)
            &&& threads >= 1 && i < d.points[s1].len() ==> e.points[s1] == d.points[s1].update(
                i,
                d.points[s0][0],
            )
        },
        KernelId::BatchScalarMul => {
            let n = crate::field_device::word_arg(args, 3);
            let scalars = d.numbers.slots[s1];
            &&& wrote_points(d, e, s2)
            &&& threads >= n && d.standard.contains(s1) && scalars.len() >= n && d.points[s2].len()
                >= n ==> forall|i: int|
                0 <= i < n ==> #[trigger] e.points[s2][i] == table_sum::<G>(
                    d.points[s0],
                    scalars[i] as nat,
                    crate::field_device::word_arg(args, 4),
                    crate::field_device::word_arg(args, 5),
                    crate::field_device::word_arg(args, 6),
                )
        },
        KernelId::U32FillZero => {
            let n = crate::field_device::word_arg(args, 1);
            &&& wrote_words(d, e, s0)
            &&& threads >= n && d.words[s0].len() >= n ==> forall|i: int|
                0 <= i < d.words[s0].len() ==> #[trigger] e.words[s0][i] == (if i < n {
                    0
                } else {
                    d.words[s0][i]
                })
        },
        KernelId::U32CopyBuffer => {
            let n = crate::field_device::word_arg(args, 2);
            &&& wrote_words(d, e, s1)
            &&& threads >= n && d.words[s0].len() >= n && d.words[s1].len() >= n ==> forall|i: int|
                0 <= i < d.words[s1].len() ==> #[trigger] e.words[s1][i] == (if i < n {
                    d.words[s0][i]
                } else {
                    d.words[s1][i]
                })
        },
        _ => kept(d, e),
    }
}

/// What a command may leave on a device. `of` is the point that a base stands for, and `act`
/// multiplies a point by an integer.
pub open spec fn stepped<G: Group, F: PrimeField, B>(
    of: spec_fn(B) -> G::Point,
    act: spec_fn(int, G::Point) -> G::Point,
    d: MsmDevice<G::Point>,
    c: Cmd<F, B>,
    e: MsmDevice<G::Point>,
) -> bool {
    &&& e.numbers == crate::field_device::step(d.numbers, c)
    &&& e.standard == forms(d.standard, c)
    &&& match c {
        Cmd::Alloc { slot, elem, len } => {
            &&& replaced(d, e, slot)
            &&& elem == Elem::Digit ==> e.digits[slot].len() == len
            &&& elem == Elem::Word ==> e.words[slot].len() == len
            &&& elem == Elem::Point ==> e.points[slot].len() == len
        },
        Cmd::Upload { slot, data } => {
            &&& replaced(d, e, slot)
            &&& match data {
                DataView::Bases(s) => e.points[slot] == s.map_values(of),
                DataView::Words(s) => e.words[slot] == s,
                DataView::Identities(n) => e.points[slot] == Seq::new(n, |i: int| G::identity()),
                _ => true,
            }
        },
        Cmd::Write { slot, data } => match data {
            DataView::Words(s) => {
                &&& wrote_words(d, e, slot)
                &&& s.len() <= d.words[slot].len() ==> e.words[slot] == s + d.words[slot].skip(
                    s.len() as int,
                )
            },
            DataView::Bases(s) => {
                &&& wrote_points(d, e, slot)
                &&& s.len() <= d.points[slot].len() ==> e.points[slot] == s.map_values(of)
                    + d.points[slot].skip(s.len() as int)
            },
            DataView::Identities(n) => {
                &&& wrote_points(d, e, slot)
                &&& n <= d.points[slot].len() ==> e.points[slot] == Seq::new(
                    n,
                    |i: int| G::identity(),
                ) + d.points[slot].skip(n as int)
            },
            _ => kept(d, e),
        },
        Cmd::Launch { kernel, global, local, args } => launched::<G>(
            act,
            d,
            kernel,
            global,
            local,
            args,
            e,
        ),
        Cmd::Read { slot, elem, len } => match elem {
            Elem::Word => {
                &&& e == (MsmDevice {
                    numbers: e.numbers,
                    standard: e.standard,
                    words_out: d.words_out.push(e.words_out.last()),
                    ..d
                })
                &&& len <= d.words[slot].len() ==> e.words_out.last() == d.words[slot].take(
                    len as int,
                )
            },
            Elem::Point => {
                &&& e == (MsmDevice {
                    numbers: e.numbers,
                    standard: e.standard,
                    points_out: d.points_out.push(e.points_out.last()),
                    ..d
                })
                &&& len <= d.points[slot].len() ==> e.points_out.last() == d.points[slot].take(
                    len as int,
                )
            },
            _ => kept(d, e),
        },
        Cmd::Free { slot } => replaced(d, e, slot),
    }
}

/// Whether a device may go through these states while it runs a list of commands.
pub open spec fn runs<G: Group, F: PrimeField, B>(
    of: spec_fn(B) -> G::Point,
    act: spec_fn(int, G::Point) -> G::Point,
    log: Seq<Cmd<F, B>>,
    states: Seq<MsmDevice<G::Point>>,
) -> bool {
    &&& states.len() == log.len() + 1
    &&& forall|i: int|
        0 <= i < log.len() ==> stepped::<G, F, B>(
            of,
            act,
            states[i],
            #[trigger] log[i],
            states[i + 1],
        )
}

/// Commands can be run in two goes.
pub proof fn runs_in_two<G: Group, F: PrimeField, B>(
    of: spec_fn(B) -> G::Point,
    act: spec_fn(int, G::Point) -> G::Point,
    a: Seq<Cmd<F, B>>,
    b: Seq<Cmd<F, B>>,
    states: Seq<MsmDevice<G::Point>>,
)
    requires
        runs::<G, F, B>(of, act, a + b, states),
    ensures
        runs::<G, F, B>(of, act, a, states.take(a.len() as int + 1)),
        runs::<G, F, B>(of, act, b, states.skip(a.len() as int)),
        states.take(a.len() as int + 1).last() == states.skip(a.len() as int)[0],
        states.take(a.len() as int + 1)[0] == states[0],
        states.skip(a.len() as int).last() == states.last(),
{
    let n = a.len() as int;
    let first = states.take(n + 1);
    let second = states.skip(n);
    assert forall|i: int| 0 <= i < a.len() implies stepped::<G, F, B>(
        of,
        act,
        first[i],
        #[trigger] a[i],
        first[i + 1],
    ) by {
        assert((a + b)[i] == a[i]);
    }
    assert forall|i: int| 0 <= i < b.len() implies stepped::<G, F, B>(
        of,
        act,
        second[i],
        #[trigger] b[i],
        second[i + 1],
    ) by {
        assert((a + b)[n + i] == b[i]);
    }
}

/// The numbers on the device are those that [`crate::field_device::run`] gives.
pub proof fn numbers_run<G: Group, F: PrimeField, B>(
    of: spec_fn(B) -> G::Point,
    act: spec_fn(int, G::Point) -> G::Point,
    log: Seq<Cmd<F, B>>,
    states: Seq<MsmDevice<G::Point>>,
)
    requires
        runs::<G, F, B>(of, act, log, states),
    ensures
        states.last().numbers == crate::field_device::run(states[0].numbers, log),
    decreases log.len(),
{
    if log.len() > 0 {
        let n = log.len() as int;
        let before = log.drop_last();
        let first = states.take(n);
        assert forall|i: int| 0 <= i < before.len() implies stepped::<G, F, B>(
            of,
            act,
            first[i],
            #[trigger] before[i],
            first[i + 1],
        ) by {
            assert(log[i] == before[i]);
        }
        numbers_run::<G, F, B>(of, act, before, first);
        assert(log[n - 1] == log.last());
    }
}

/// What has been handed to the host stays so.
pub proof fn words_out_grow<G: Group, F: PrimeField, B>(
    of: spec_fn(B) -> G::Point,
    act: spec_fn(int, G::Point) -> G::Point,
    log: Seq<Cmd<F, B>>,
    states: Seq<MsmDevice<G::Point>>,
)
    requires
        runs::<G, F, B>(of, act, log, states),
    ensures
        states.last().words_out.len() >= states[0].words_out.len(),
        forall|i: int|
            0 <= i < states[0].words_out.len() ==> #[trigger] states.last().words_out[i]
                == states[0].words_out[i],
    decreases log.len(),
{
    if log.len() > 0 {
        let n = log.len() as int;
        let before = log.drop_last();
        let first = states.take(n);
        assert forall|i: int| 0 <= i < before.len() implies stepped::<G, F, B>(
            of,
            act,
            first[i],
            #[trigger] before[i],
            first[i + 1],
        ) by {
            assert(log[i] == before[i]);
        }
        words_out_grow::<G, F, B>(of, act, before, first);
        words_out_step::<G, F, B>(of, act, states[n - 1], log[n - 1], states[n]);
    }
}

proof fn words_out_step<G: Group, F: PrimeField, B>(
    of: spec_fn(B) -> G::Point,
    act: spec_fn(int, G::Point) -> G::Point,
    d: MsmDevice<G::Point>,
    c: Cmd<F, B>,
    e: MsmDevice<G::Point>,
)
    requires
        stepped::<G, F, B>(of, act, d, c, e),
    ensures
        e.words_out.len() >= d.words_out.len(),
        forall|i: int|
            0 <= i < d.words_out.len() ==> #[trigger] e.words_out[i] == d.words_out[i],
{
    match c {
        Cmd::Read { slot, elem, len } => {
            match elem {
                Elem::Word => {
                    assert(e.words_out == d.words_out.push(e.words_out.last()));
                },
                _ => {
                    assert(e.words_out == d.words_out);
                },
            }
        },
        _ => {
            assert(e.words_out == d.words_out);
        },
    }
}

} // verus!
