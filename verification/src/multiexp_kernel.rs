//! Multiexponentiation on several devices.

use vstd::prelude::*;

use crate::arith::div_ceil;
use crate::curve::GpuAffine;
use crate::error::{EcError, EcResult};
use crate::group::Group;
use crate::opencl::{Device, Program};
use crate::single_multiexp::SingleMultiexpKernel;

verus! {

/// A struct that contains several multiexp kernels for different devices.
#[derive(Debug)]
pub struct MultiexpKernel<G> where G: GpuAffine {
    kernels: Vec<SingleMultiexpKernel<G>>,
}

/// The pieces of at most `n` items that the items from `start` to `end` are split into.
pub open spec fn pieces(start: int, end: int, n: int) -> Seq<(int, int)> {
    Seq::new(
        crate::arith::ceil_div(end - start, n) as nat,
        |j: int| (start + j * n, crate::arith::min_of(start + (j + 1) * n, end)),
    )
}

/// The items that each of at most `k` devices gets: as many as the others, but for the last one.
pub open spec fn shares(num_items: int, k: int) -> Seq<(int, int)> {
    pieces(0, num_items, crate::arith::ceil_div(num_items, k))
}

/// The ranges, as integers.
pub open spec fn as_ints(s: Seq<(usize, usize)>) -> Seq<(int, int)> {
    s.map_values(|r: (usize, usize)| (r.0 as int, r.1 as int))
}

/// The pieces of at most `n` items that the items from `start` to `end` are split into.
pub fn split(start: usize, end: usize, n: usize) -> (r: Vec<(usize, usize)>)
    requires
        start <= end,
        n > 0,
    ensures
        as_ints(r@) == pieces(start as int, end as int, n as int),
{
    let mut out: Vec<(usize, usize)> = Vec::new();
    let ghost want = pieces(start as int, end as int, n as int);
    let mut at: usize = start;
    let ghost mut j: nat = 0;
    proof {
        crate::arith::ceil_div_least(end - start, n as int);
    }
    while at < end
        invariant
            start <= at <= end,
            n > 0,
            want == pieces(start as int, end as int, n as int),
            want.len() * n >= end - start,
            want.len() == crate::arith::ceil_div(end - start, n as int),
            (want.len() - 1) * n < end - start,
            j <= want.len(),
            at == crate::arith::min_of(start + j * n, end as int),
            as_ints(out@) == want.take(j as int),
        decreases end - at,
    {
        let rest: usize = end - at;
        let next: usize = if n <= rest {
            at + n
        } else {
            end
        };
        proof {
            let ji = j as int;
            let ni = n as int;
            let l = want.len() as int;
            let e = end as int;
            let s = start as int;
            assert((ji + 1) * ni == ji * ni + ni) by (nonlinear_arith);
            assert(ji < l) by (nonlinear_arith)
                requires
                    s + ji * ni < e,
                    l * ni >= e - s,
                    ni > 0,
            ;
            assert(want[ji] == (at as int, next as int));
            assert(as_ints(out@.push((at, next))) =~= want.take(ji).push(want[ji]));
            assert(want.take(ji).push(want[ji]) =~= want.take(ji + 1));
            j = j + 1;
        }
        out.push((at, next));
        at = next;
    }
    proof {
        let ji = j as int;
        let ni = n as int;
        let l = want.len() as int;
        let d = end - start;
        assert(ji * ni >= d);
        assert(ji > l - 1) by (nonlinear_arith)
            requires
                ji * ni >= d,
                (l - 1) * ni < d,
                ni > 0,
        ;
        assert(want.take(ji) =~= want);
    }
    out
}

/// There are no more shares than devices.
pub proof fn shares_fit(num_items: int, k: int)
    requires
        num_items > 0,
        k > 0,
    ensures
        0 < shares(num_items, k).len() <= k,
        crate::arith::ceil_div(num_items, k) > 0,
{
    let cs = crate::arith::ceil_div(num_items, k);
    crate::arith::ceil_div_least(num_items, k);
    crate::arith::ceil_div_least(num_items, cs);
    let l = crate::arith::ceil_div(num_items, cs);
    assert(l <= k) by (nonlinear_arith)
        requires
            (l - 1) * cs < num_items,
            cs * k >= num_items,
            cs > 0,
    ;
}

/// The work of one device: pieces are computed one after the other and added up.
#[derive(Debug)]
pub struct DeviceProgress<G: Group> {
    acc: G,
    stopped: bool,
}

impl<G: Group> DeviceProgress<G> {
    /// The sum of the pieces so far.
    pub closed spec fn sum_so_far(&self) -> G::Point {
        self.acc.point()
    }

    /// Whether a piece has failed.
    pub closed spec fn has_stopped(&self) -> bool {
        self.stopped
    }

    /// Nothing has been computed yet.
    pub fn new() -> (r: Self)
        ensures
            r.sum_so_far() == G::identity(),
            !r.has_stopped(),
    {
        DeviceProgress { acc: G::zero(), stopped: false }
    }

    /// Whether the next piece is to be computed. `failed` says whether any device has failed.
    pub fn goes_on(&self, failed: bool) -> (r: bool)
        ensures
            r == (!failed && !self.has_stopped()),
    {
        !failed && !self.stopped
    }

    /// Takes the result of a piece. Returns the error to report, if there is one.
    pub fn take(&mut self, result: EcResult<G>) -> (r: Option<EcError>)
        ensures
            result matches Ok(p) ==> r is None && final(self).sum_so_far() == G::plus(
                old(self).sum_so_far(),
                p.point(),
            ) && final(self).has_stopped() == old(self).has_stopped(),
            result matches Err(e) ==> r == Some(e) && final(self).has_stopped()
                && final(self).sum_so_far() == old(self).sum_so_far(),
    {
        match result {
            Ok(p) => {
                self.acc = self.acc.added(&p);
                None
            },
            Err(e) => {
                self.stopped = true;
                Some(e)
            },
        }
    }

    /// The result of the device, unless a device has failed.
    pub fn result(&self, failed: bool) -> (r: Option<G>)
        ensures
            failed ==> r is None,
            !failed ==> (r matches Some(g) && g.point() == self.sum_so_far()),
    {
        if failed {
            None
        } else {
            Some(self.acc)
        }
    }
}

impl<G> MultiexpKernel<G> where G: GpuAffine {
    /// The kernels, one for each device.
    pub closed spec fn spec_kernels(&self) -> Seq<SingleMultiexpKernel<G>> {
        self.kernels@
    }

    /// How many kernels there are for some programs and devices.
    pub open spec fn pairs(programs: Seq<Program>, devices: Seq<Device>) -> nat {
        crate::arith::min_of(programs.len() as int, devices.len() as int) as nat
    }

    /// What the functions that create kernels return.
    pub open spec fn created(
        r: EcResult<Self>,
        programs: Seq<Program>,
        devices: Seq<Device>,
        abortable: bool,
    ) -> bool {
        if Self::pairs(programs, devices) == 0 {
            r matches Err(EcError::Simple(s)) && s@ == "No working GPUs found!"@
        } else {
            r matches Ok(m) && m.spec_kernels().len() == Self::pairs(programs, devices) && forall|
                i: int,
            |
                0 <= i < m.spec_kernels().len() ==> (#[trigger] m.spec_kernels()[i]).is_for(
                    programs[i],
                    devices[i]@,
                    abortable,
                )
        }
    }

    /// Create new kernels, one for each given device.
    pub fn create(programs: Vec<Program>, devices: &[Device]) -> (r: EcResult<Self>)
        requires
            forall|i: int|
                0 <= i < Self::pairs(programs@, devices@) ==> SingleMultiexpKernel::<
                    G,
                >::large_enough((#[trigger] devices@[i])@),
        ensures
            Self::created(r, programs@, devices@, false),
    {
        Self::create_optional_abort(programs, devices, false)
    }

    /// Create new kernels, one for each given device, with early abort hook.
    ///
    /// The hook is asked when it is possible to abort the computation, without leaving the GPU in
    /// a weird state. If it says so, execution is aborted.
    pub fn create_with_abort(programs: Vec<Program>, devices: &[Device]) -> (r: EcResult<Self>)
        requires
            forall|i: int|
                0 <= i < Self::pairs(programs@, devices@) ==> SingleMultiexpKernel::<
                    G,
                >::large_enough((#[trigger] devices@[i])@),
        ensures
            Self::created(r, programs@, devices@, true),
    {
        Self::create_optional_abort(programs, devices, true)
    }

    fn create_optional_abort(programs: Vec<Program>, devices: &[Device], abortable: bool) -> (r:
        EcResult<Self>)
        requires
            forall|i: int|
                0 <= i < Self::pairs(programs@, devices@) ==> SingleMultiexpKernel::<
                    G,
                >::large_enough((#[trigger] devices@[i])@),
        ensures
            Self::created(r, programs@, devices@, abortable),
    {
        let ghost given = programs@;
        let n: usize = if programs.len() <= devices.len() {
            programs.len()
        } else {
            devices.len()
        };
        let mut rest: Vec<Program> = programs;
        rest.truncate(n);
        let mut kernels: Vec<SingleMultiexpKernel<G>> = Vec::new();
        let mut i: usize = 0;
        while i < n
            invariant
                i <= n,
                n == Self::pairs(given, devices@),
                kernels@.len() == i,
                rest@ =~= given.subrange(i as int, n as int),
                forall|j: int|
                    0 <= j < n ==> SingleMultiexpKernel::<G>::large_enough(
                        (#[trigger] devices@[j])@,
                    ),
                forall|j: int|
                    0 <= j < i ==> (#[trigger] kernels@[j]).is_for(
                        given[j],
                        devices@[j]@,
                        abortable,
                    ),
            decreases n - i,
        {
            let program = rest.remove(0);
            match SingleMultiexpKernel::create(program, &devices[i], abortable) {
                Ok(kernel) => {
                    kernels.push(kernel);
                },
                Err(_) => {},
            }
            i = i + 1;
        }
        if kernels.len() == 0 {
            return Err(EcError::Simple("No working GPUs found!"));
        }
        Ok(MultiexpKernel { kernels })
    }

    /// The kernel of a device.
    pub fn kernel(&self, i: usize) -> (r: &SingleMultiexpKernel<G>)
        requires
            i < self.spec_kernels().len(),
        ensures
            *r == self.spec_kernels()[i as int],
    {
        &self.kernels[i]
    }

    /// Returns the number of kernels (one per device).
    pub fn num_kernels(&self) -> (r: usize)
        ensures
            r == self.spec_kernels().len(),
    {
        self.kernels.len()
    }

    /// Divide a multiexp among all available GPUs.
    ///
    /// Returns for each device that has something to do the ranges of terms that it computes, one
    /// after the other. A range has at most as many terms as fit onto the device.
    pub fn parallel_multiexp(&self, num_exps: usize) -> (r: Vec<Vec<(usize, usize)>>)
        requires
            self.spec_kernels().len() > 0,
            num_exps > 0,
            forall|i: int|
                0 <= i < self.spec_kernels().len() ==> (
                #[trigger] self.spec_kernels()[i]).spec_n() > 0,
        ensures
            self.divided(r@, num_exps),
    {
        let num_devices: usize = self.kernels.len();
        proof {
            shares_fit(num_exps as int, num_devices as int);
        }
        // The maximum number of exponentiations per device.
        let chunk_size: usize = div_ceil(num_exps, num_devices);
        let ranges = split(0, num_exps, chunk_size);
        let ghost want = shares(num_exps as int, num_devices as int);
        assert(as_ints(ranges@) == want);
        let mut out: Vec<Vec<(usize, usize)>> = Vec::new();
        let mut i: usize = 0;
        while i < ranges.len()
            invariant
                i <= ranges@.len(),
                num_exps > 0,
                self.spec_kernels().len() > 0,
                want == shares(num_exps as int, self.spec_kernels().len() as int),
                as_ints(ranges@) == want,
                want.len() <= self.spec_kernels().len(),
                crate::arith::ceil_div(num_exps as int, self.spec_kernels().len() as int) > 0,
                forall|j: int|
                    0 <= j < self.spec_kernels().len() ==> (
                    #[trigger] self.spec_kernels()[j]).spec_n() > 0,
                out@.len() == i,
                forall|j: int|
                    0 <= j < i ==> as_ints((#[trigger] out@[j])@) == pieces(
                        want[j].0,
                        want[j].1,
                        self.spec_kernels()[j].spec_n() as int,
                    ),
            decreases ranges@.len() - i,
        {
            let (start, end) = ranges[i];
            proof {
                assert(want[i as int] == as_ints(ranges@)[i as int]);
                share_is_range(num_exps as int, self.spec_kernels().len() as int, i as int);
            }
            assert(self.spec_kernels()[i as int] == self.kernels@[i as int]);
            let n: usize = self.kernels[i].chunk_size();
            out.push(split(start, end, n));
            i = i + 1;
        }
        out
    }

    /// What [`MultiexpKernel::parallel_multiexp`] returns.
    pub open spec fn divided(&self, r: Seq<Vec<(usize, usize)>>, num_exps: usize) -> bool {
        let parts = shares(num_exps as int, self.spec_kernels().len() as int);
        &&& r.len() == parts.len()
        &&& forall|i: int|
            0 <= i < r.len() ==> as_ints((#[trigger] r[i])@) == pieces(
                parts[i].0,
                parts[i].1,
                self.spec_kernels()[i].spec_n() as int,
            )
    }

    /// Plan a multiexp.
    ///
    /// This is the main entry point. Returns the bases that belong to the exponents, which are
    /// those after `skip` others, and how the terms are divided among the devices.
    pub fn multiexp<'a>(&self, bases: &'a [G::GpuRepr], num_exps: usize, skip: usize) -> (r: (
        &'a [G::GpuRepr],
        Vec<Vec<(usize, usize)>>,
    ))
        requires
            skip + num_exps <= bases@.len(),
            self.spec_kernels().len() > 0,
            num_exps > 0,
            forall|i: int|
                0 <= i < self.spec_kernels().len() ==> (
                #[trigger] self.spec_kernels()[i]).spec_n() > 0,
        ensures
            r.0@ == bases@.subrange(skip as int, skip + num_exps),
            self.divided(r.1@, num_exps),
    {
        assert(bases.len() <= usize::MAX);
        let mine = vstd::slice::slice_subrange(bases, skip, skip + num_exps);
        (mine, self.parallel_multiexp(num_exps))
    }

    /// The result of a multiexp, from the results of the devices. `failed` is the error of a
    /// device that failed, if there is one.
    pub fn finish(results: &[G::Group], failed: Option<EcError>) -> (r: EcResult<G::Group>)
        ensures
            failed matches Some(e) ==> r == Err::<G::Group, EcError>(e),
            failed is None ==> (r matches Ok(g) && g.point() == crate::group::sum::<G::Group>(
                crate::group::points(results@),
            )),
    {
        match failed {
            Some(e) => Err(e),
            None => {
                let mut acc: G::Group = G::Group::zero();
                let ghost ps = crate::group::points(results@);
                let mut i: usize = 0;
                assert(ps.take(0) =~= Seq::empty());
                while i < results.len()
                    invariant
                        i <= results@.len(),
                        ps == crate::group::points(results@),
                        acc.point() == crate::group::sum::<G::Group>(ps.take(i as int)),
                    decreases results@.len() - i,
                {
                    assert(ps.take(i + 1).drop_last() =~= ps.take(i as int));
                    acc = acc.added(&results[i]);
                    i = i + 1;
                }
                assert(ps.take(i as int) =~= ps);
                Ok(acc)
            },
        }
    }
}

/// A share is a range of items.
pub proof fn share_is_range(num_items: int, k: int, i: int)
    requires
        num_items > 0,
        k > 0,
        0 <= i < shares(num_items, k).len(),
    ensures
        0 <= shares(num_items, k)[i].0 <= shares(num_items, k)[i].1 <= num_items,
{
    shares_fit(num_items, k);
    piece_is_range(0, num_items, crate::arith::ceil_div(num_items, k), i);
}

/// A piece is not empty, has at most `n` items, and begins where the one before it ends.
pub proof fn piece_is_range(start: int, end: int, n: int, j: int)
    requires
        start <= end,
        n > 0,
        0 <= j < pieces(start, end, n).len(),
    ensures
        start <= pieces(start, end, n)[j].0 < pieces(start, end, n)[j].1 <= end,
        pieces(start, end, n)[j].1 - pieces(start, end, n)[j].0 <= n,
        j == 0 ==> pieces(start, end, n)[j].0 == start,
        j > 0 ==> pieces(start, end, n)[j].0 == pieces(start, end, n)[j - 1].1,
        j == pieces(start, end, n).len() - 1 ==> pieces(start, end, n)[j].1 == end,
{
    crate::arith::ceil_div_least(end - start, n);
    let l = pieces(start, end, n).len() as int;
    assert((j + 1) * n == j * n + n) by (nonlinear_arith);
    assert(j * n <= (l - 1) * n) by (nonlinear_arith)
        requires
            j <= l - 1,
            n > 0,
    ;
    assert(j * n >= 0) by (nonlinear_arith)
        requires
            j >= 0,
            n > 0,
    ;
    if j == l - 1 {
        assert((j + 1) * n == l * n);
    }
    if j > 0 {
        assert((j - 1 + 1) * n == j * n);
    }
}

/// The sums of the pieces of a range.
pub open spec fn piece_sums<G: Group>(terms: Seq<G::Point>, ranges: Seq<(int, int)>) -> Seq<
    G::Point,
> {
    ranges.map_values(|r: (int, int)| crate::group::sum::<G>(terms.subrange(r.0, r.1)))
}

proof fn sums_of_first_pieces<G: Group>(
    c: Set<G::Point>,
    terms: Seq<G::Point>,
    start: int,
    end: int,
    n: int,
    m: nat,
)
    requires
        crate::group::abelian::<G>(c),
        crate::group::all_in(c, terms),
        0 <= start <= end <= terms.len(),
        n > 0,
        m <= pieces(start, end, n).len(),
    ensures
        crate::group::sum::<G>(piece_sums::<G>(terms, pieces(start, end, n)).take(m as int))
            == crate::group::sum::<G>(
            terms.subrange(
                start,
                if m == 0 {
                    start
                } else {
                    pieces(start, end, n)[m - 1].1
                },
            ),
        ),
        m > 0 ==> start <= pieces(start, end, n)[m - 1].1 <= end,
    decreases m,
{
    let ps = pieces(start, end, n);
    let sums = piece_sums::<G>(terms, ps);
    if m == 0 {
        assert(sums.take(0) =~= Seq::empty());
        assert(terms.subrange(start, start) =~= Seq::empty());
    } else {
        let k = (m - 1) as nat;
        sums_of_first_pieces::<G>(c, terms, start, end, n, k);
        piece_is_range(start, end, n, k as int);
        assert(sums.take(m as int).drop_last() =~= sums.take(k as int));
        let mid = ps[k as int].0;
        let to = ps[k as int].1;
        let a = terms.subrange(start, mid);
        let b = terms.subrange(mid, to);
        assert(a + b =~= terms.subrange(start, to));
        crate::group::sum_concat::<G>(c, a, b);
    }
}

/// Adding up the pieces of a range gives the sum of the range.
pub proof fn pieces_add_up<G: Group>(
    c: Set<G::Point>,
    terms: Seq<G::Point>,
    start: int,
    end: int,
    n: int,
)
    requires
        crate::group::abelian::<G>(c),
        crate::group::all_in(c, terms),
        0 <= start <= end <= terms.len(),
        n > 0,
    ensures
        crate::group::sum::<G>(piece_sums::<G>(terms, pieces(start, end, n)))
            == crate::group::sum::<G>(terms.subrange(start, end)),
{
    let ps = pieces(start, end, n);
    let sums = piece_sums::<G>(terms, ps);
    sums_of_first_pieces::<G>(c, terms, start, end, n, ps.len());
    assert(sums.take(ps.len() as int) =~= sums);
    crate::arith::ceil_div_least(end - start, n);
    if ps.len() > 0 {
        piece_is_range(start, end, n, ps.len() - 1);
    } else {
        assert(start == end);
    }
}

/// However many devices there are and however much each of them takes at a time, the results of
/// the devices add up to the sum of all terms.
pub proof fn devices_add_up<G: Group>(
    c: Set<G::Point>,
    terms: Seq<G::Point>,
    k: int,
    sizes: Seq<int>,
)
    requires
        crate::group::abelian::<G>(c),
        crate::group::all_in(c, terms),
        terms.len() > 0,
        k > 0,
        sizes.len() == k,
        forall|i: int| 0 <= i < k ==> #[trigger] sizes[i] > 0,
    ensures
        crate::group::sum::<G>(
            Seq::new(
                shares(terms.len() as int, k).len(),
                |i: int|
                    crate::group::sum::<G>(
                        piece_sums::<G>(
                            terms,
                            pieces(
                                shares(terms.len() as int, k)[i].0,
                                shares(terms.len() as int, k)[i].1,
                                sizes[i],
                            ),
                        ),
                    ),
            ),
        ) == crate::group::sum::<G>(terms),
{
    let total = terms.len() as int;
    let parts = shares(total, k);
    shares_fit(total, k);
    let per_device = Seq::new(
        parts.len(),
        |i: int|
            crate::group::sum::<G>(
                piece_sums::<G>(terms, pieces(parts[i].0, parts[i].1, sizes[i])),
            ),
    );
    assert forall|i: int| 0 <= i < parts.len() implies per_device[i] == piece_sums::<G>(
        terms,
        parts,
    )[i] by {
        share_is_range(total, k, i);
        assert(sizes[i] > 0);
        pieces_add_up::<G>(c, terms, parts[i].0, parts[i].1, sizes[i]);
    }
    assert(per_device =~= piece_sums::<G>(terms, parts));
    pieces_add_up::<G>(c, terms, 0, total, crate::arith::ceil_div(total, k));
    assert(terms.subrange(0, total) =~= terms);
}

/// How a multiexp is divided: the devices get the terms in turn, none is left out and none is given
/// twice. No device gets more than one term more than its even share. Each takes its terms in ranges
/// that lie back to back, of as many terms as fit onto the device but for the last range.
pub proof fn devices_share_evenly<G: GpuAffine>(
    kernel: &MultiexpKernel<G>,
    num_exps: usize,
    r: Vec<Vec<(usize, usize)>>,
    i: int,
    j: int,
)
    requires
        call_ensures(MultiexpKernel::<G>::parallel_multiexp, (kernel, num_exps), r),
        kernel.spec_kernels().len() > 0,
        num_exps > 0,
        forall|d: int|
            0 <= d < kernel.spec_kernels().len() ==> (
            #[trigger] kernel.spec_kernels()[d]).spec_n() > 0,
        0 <= i < r@.len(),
        0 <= j < r@[i]@.len(),
    ensures
        ({
            let mine = r@[i]@;
            let n = kernel.spec_kernels()[i].spec_n();
            let k = kernel.spec_kernels().len();
            &&& r@.len() <= k
            &&& mine[j].0 < mine[j].1 <= num_exps
            &&& mine[j].1 - mine[j].0 <= n
            &&& j + 1 < mine.len() ==> mine[j].1 - mine[j].0 == n && mine[j + 1].0 == mine[j].1
            &&& i == 0 ==> mine[0].0 == 0
            &&& i + 1 < r@.len() ==> r@[i + 1]@.len() > 0 && r@[i + 1]@[0].0 == mine.last().1
            &&& i + 1 == r@.len() ==> mine.last().1 == num_exps
            &&& (mine.last().1 - mine[0].0 - 1) * k < num_exps
        }),
{
    let total = num_exps as int;
    let k = kernel.spec_kernels().len() as int;
    let parts = shares(total, k);
    shares_fit(total, k);
    let c = crate::arith::ceil_div(total, k);
    crate::arith::ceil_div_least(total, k);
    share_starts(total, k, i);
    ranges_of_share(kernel, num_exps, r, i);
    let (start, end) = parts[i];
    let n = kernel.spec_kernels()[i].spec_n() as int;
    piece_is_range(start, end, n, j);
    let mine = r@[i]@;
    assert(as_ints(mine)[j] == pieces(start, end, n)[j]);
    if j + 1 < mine.len() {
        piece_is_range(start, end, n, j + 1);
        assert(as_ints(mine)[j + 1] == pieces(start, end, n)[j + 1]);
        assert((j + 1) * n == j * n + n && (j + 2) * n == j * n + 2 * n) by (nonlinear_arith);
    } else {
        assert((j + 1) * n == j * n + n) by (nonlinear_arith);
    }
    if i + 1 < r@.len() {
        share_starts(total, k, i + 1);
        ranges_of_share(kernel, num_exps, r, i + 1);
    }
    let size = end - start;
    assert((size - 1) * k < total) by (nonlinear_arith)
        requires
            size <= c,
            (c - 1) * k < total,
            k > 0,
    ;
}

/// Where the share of a device starts and ends.
proof fn share_starts(total: int, k: int, i: int)
    requires
        total > 0,
        k > 0,
        0 <= i < shares(total, k).len(),
    ensures
        ({
            let parts = shares(total, k);
            let c = crate::arith::ceil_div(total, k);
            &&& parts[i].0 == i * c
            &&& 0 <= parts[i].0 < parts[i].1 <= total
            &&& parts[i].1 - parts[i].0 <= c
            &&& i + 1 < parts.len() ==> parts[i].1 == (i + 1) * c
            &&& i + 1 == parts.len() ==> parts[i].1 == total
        }),
{
    let c = crate::arith::ceil_div(total, k);
    shares_fit(total, k);
    let l = crate::arith::ceil_div(total, c);
    crate::arith::ceil_div_least(total, c);
    assert((i + 1) * c == i * c + c) by (nonlinear_arith);
    assert(0 <= i * c < total) by (nonlinear_arith)
        requires
            0 <= i <= l - 1,
            (l - 1) * c < total,
            c > 0,
    ;
    if i + 1 < l {
        assert((i + 1) * c <= (l - 1) * c) by (nonlinear_arith)
            requires
                i + 1 <= l - 1,
                c > 0,
        ;
    }
}

/// The first and the last range of a device.
proof fn ranges_of_share<G: GpuAffine>(
    kernel: &MultiexpKernel<G>,
    num_exps: usize,
    r: Vec<Vec<(usize, usize)>>,
    i: int,
)
    requires
        kernel.divided(r@, num_exps),
        kernel.spec_kernels().len() > 0,
        num_exps > 0,
        forall|d: int|
            0 <= d < kernel.spec_kernels().len() ==> (
            #[trigger] kernel.spec_kernels()[d]).spec_n() > 0,
        0 <= i < r@.len(),
    ensures
        ({
            let parts = shares(num_exps as int, kernel.spec_kernels().len() as int);
            &&& r@[i]@.len() > 0
            &&& r@[i]@[0].0 == parts[i].0
            &&& r@[i]@.last().1 == parts[i].1
        }),
{
    let total = num_exps as int;
    let k = kernel.spec_kernels().len() as int;
    let parts = shares(total, k);
    shares_fit(total, k);
    share_starts(total, k, i);
    let (start, end) = parts[i];
    let n = kernel.spec_kernels()[i].spec_n() as int;
    let mine = r@[i]@;
    let ps = pieces(start, end, n);
    assert(as_ints(mine) == ps);
    crate::arith::ceil_div_least(end - start, n);
    let l = ps.len() as int;
    assert(as_ints(mine)[0] == ps[0]);
    assert(as_ints(mine)[l - 1] == ps[l - 1]);
    assert(0 * n == 0);
    assert(l - 1 + 1 == l);
}

} // verus!
