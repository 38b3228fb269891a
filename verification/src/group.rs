//! Groups, and the sums that a multiexponentiation is made of.

use vstd::prelude::*;

verus! {

/// A group whose elements the host can add.
///
/// `Point` is what a value stands for. Several values may stand for the same point, as the
/// coordinates of a projective point do.
pub trait Group: Sized + Copy {
    /// The elements of the group.
    type Point;

    /// The element that a value stands for.
    spec fn point(&self) -> Self::Point;

    /// The neutral element.
    spec fn identity() -> Self::Point;

    /// The group operation.
    spec fn plus(a: Self::Point, b: Self::Point) -> Self::Point;

    /// A value for the neutral element.
    fn zero() -> (r: Self)
        ensures
            r.point() == Self::identity(),
    ;

    /// The sum of two values.
    fn added(&self, other: &Self) -> (r: Self)
        ensures
            r.point() == Self::plus(self.point(), other.point()),
    ;

    /// The sum of a value with itself.
    fn double(&self) -> (r: Self)
        ensures
            r.point() == Self::plus(self.point(), self.point()),
    ;
}

/// The points that a sequence of values stands for.
pub open spec fn points<G: Group>(s: Seq<G>) -> Seq<G::Point> {
    s.map_values(|g: G| g.point())
}

/// `p` doubled `k` times.
pub open spec fn doubled<G: Group>(p: G::Point, k: nat) -> G::Point
    decreases k,
{
    if k == 0 {
        p
    } else {
        G::plus(doubled::<G>(p, (k - 1) as nat), doubled::<G>(p, (k - 1) as nat))
    }
}

/// `acc` with the points of `s` added to it, first to last.
pub open spec fn add_all<G: Group>(acc: G::Point, s: Seq<G::Point>) -> G::Point
    decreases s.len(),
{
    if s.len() == 0 {
        acc
    } else {
        G::plus(add_all::<G>(acc, s.drop_last()), s.last())
    }
}

/// The sum of the points of `s`.
pub open spec fn sum<G: Group>(s: Seq<G::Point>) -> G::Point {
    add_all::<G>(G::identity(), s)
}

/// `p` added to itself `k` times, starting from the neutral element.
pub open spec fn times<G: Group>(k: nat, p: G::Point) -> G::Point
    decreases k,
{
    if k == 0 {
        G::identity()
    } else {
        G::plus(times::<G>((k - 1) as nat, p), p)
    }
}

/// Whether the operation makes the points in `c` an abelian monoid. The points of a curve are
/// such a set.
pub open spec fn abelian<G: Group>(c: Set<G::Point>) -> bool {
    &&& c.contains(G::identity())
    &&& forall|a: G::Point, b: G::Point|
        c.contains(a) && c.contains(b) ==> c.contains(#[trigger] G::plus(a, b))
    &&& forall|a: G::Point, b: G::Point|
        c.contains(a) && c.contains(b) ==> #[trigger] G::plus(a, b) == G::plus(b, a)
    &&& forall|a: G::Point, b: G::Point, d: G::Point|
        c.contains(a) && c.contains(b) && c.contains(d) ==> #[trigger] G::plus(G::plus(a, b), d)
            == G::plus(a, G::plus(b, d))
    &&& forall|a: G::Point| c.contains(a) ==> #[trigger] G::plus(G::identity(), a) == a
}

/// Whether all points of `s` are in `c`.
pub open spec fn all_in<P>(c: Set<P>, s: Seq<P>) -> bool {
    forall|i: int| 0 <= i < s.len() ==> c.contains(#[trigger] s[i])
}

pub proof fn doubled_in<G: Group>(c: Set<G::Point>, p: G::Point, k: nat)
    requires
        abelian::<G>(c),
        c.contains(p),
    ensures
        c.contains(doubled::<G>(p, k)),
    decreases k,
{
    if k > 0 {
        doubled_in::<G>(c, p, (k - 1) as nat);
    }
}

pub proof fn add_all_in<G: Group>(c: Set<G::Point>, acc: G::Point, s: Seq<G::Point>)
    requires
        abelian::<G>(c),
        c.contains(acc),
        all_in(c, s),
    ensures
        c.contains(add_all::<G>(acc, s)),
    decreases s.len(),
{
    if s.len() > 0 {
        assert(all_in(c, s.drop_last()));
        add_all_in::<G>(c, acc, s.drop_last());
        assert(c.contains(s[s.len() - 1]));
    }
}

/// Four terms can be added in any grouping.
pub proof fn regroup<G: Group>(
    c: Set<G::Point>,
    a: G::Point,
    b: G::Point,
    d: G::Point,
    e: G::Point,
)
    requires
        abelian::<G>(c),
        c.contains(a),
        c.contains(b),
        c.contains(d),
        c.contains(e),
    ensures
        G::plus(G::plus(a, b), G::plus(d, e)) == G::plus(G::plus(a, d), G::plus(b, e)),
{
    let bd = G::plus(b, d);
    assert(c.contains(bd) && bd == G::plus(d, b));
    assert(c.contains(G::plus(d, e)) && c.contains(G::plus(b, e)));
    assert(G::plus(G::plus(a, b), G::plus(d, e)) == G::plus(a, G::plus(b, G::plus(d, e))));
    assert(G::plus(b, G::plus(d, e)) == G::plus(bd, e));
    assert(G::plus(G::plus(d, b), e) == G::plus(d, G::plus(b, e)));
    assert(G::plus(G::plus(a, d), G::plus(b, e)) == G::plus(a, G::plus(d, G::plus(b, e))));
}

/// Adding to an accumulator is adding the sum to it.
pub proof fn add_all_is_plus_sum<G: Group>(c: Set<G::Point>, acc: G::Point, s: Seq<G::Point>)
    requires
        abelian::<G>(c),
        c.contains(acc),
        all_in(c, s),
    ensures
        add_all::<G>(acc, s) == G::plus(acc, sum::<G>(s)),
    decreases s.len(),
{
    if s.len() == 0 {
        assert(G::plus(G::identity(), acc) == acc);
        assert(G::plus(acc, G::identity()) == G::plus(G::identity(), acc));
    } else {
        let t = s.drop_last();
        assert(all_in(c, t));
        add_all_is_plus_sum::<G>(c, acc, t);
        add_all_in::<G>(c, G::identity(), t);
        assert(c.contains(s[s.len() - 1]));
        assert(G::plus(G::plus(acc, sum::<G>(t)), s.last()) == G::plus(
            acc,
            G::plus(sum::<G>(t), s.last()),
        ));
    }
}

/// The sum of a sequence is the sum of the sums of its two parts.
pub proof fn sum_concat<G: Group>(c: Set<G::Point>, a: Seq<G::Point>, b: Seq<G::Point>)
    requires
        abelian::<G>(c),
        all_in(c, a),
        all_in(c, b),
    ensures
        sum::<G>(a + b) == G::plus(sum::<G>(a), sum::<G>(b)),
{
    add_all_concat::<G>(G::identity(), a, b);
    add_all_in::<G>(c, G::identity(), a);
    add_all_is_plus_sum::<G>(c, sum::<G>(a), b);
}

/// Points can be added in two goes.
pub proof fn add_all_concat<G: Group>(acc: G::Point, a: Seq<G::Point>, b: Seq<G::Point>)
    ensures
        add_all::<G>(acc, a + b) == add_all::<G>(add_all::<G>(acc, a), b),
    decreases b.len(),
{
    if b.len() == 0 {
        assert(a + b =~= a);
    } else {
        assert((a + b).drop_last() =~= a + b.drop_last());
        add_all_concat::<G>(acc, a, b.drop_last());
    }
}

/// Doubling distributes over a sum of two.
pub proof fn doubled_plus<G: Group>(c: Set<G::Point>, a: G::Point, b: G::Point, k: nat)
    requires
        abelian::<G>(c),
        c.contains(a),
        c.contains(b),
    ensures
        doubled::<G>(G::plus(a, b), k) == G::plus(doubled::<G>(a, k), doubled::<G>(b, k)),
    decreases k,
{
    if k > 0 {
        let j = (k - 1) as nat;
        doubled_plus::<G>(c, a, b, j);
        doubled_in::<G>(c, a, j);
        doubled_in::<G>(c, b, j);
        regroup::<G>(
            c,
            doubled::<G>(a, j),
            doubled::<G>(b, j),
            doubled::<G>(a, j),
            doubled::<G>(b, j),
        );
    }
}

/// The neutral element stays what it is when doubled.
pub proof fn doubled_identity<G: Group>(c: Set<G::Point>, k: nat)
    requires
        abelian::<G>(c),
    ensures
        doubled::<G>(G::identity(), k) == G::identity(),
    decreases k,
{
    if k > 0 {
        doubled_identity::<G>(c, (k - 1) as nat);
        assert(G::plus(G::identity(), G::identity()) == G::identity());
    }
}

/// Doubling `j` times and then `k` times is doubling `j + k` times.
pub proof fn doubled_doubled<G: Group>(p: G::Point, j: nat, k: nat)
    ensures
        doubled::<G>(doubled::<G>(p, j), k) == doubled::<G>(p, j + k),
    decreases k,
{
    if k > 0 {
        doubled_doubled::<G>(p, j, (k - 1) as nat);
    }
}

pub proof fn times_in<G: Group>(c: Set<G::Point>, k: nat, p: G::Point)
    requires
        abelian::<G>(c),
        c.contains(p),
    ensures
        c.contains(times::<G>(k, p)),
    decreases k,
{
    if k > 0 {
        times_in::<G>(c, (k - 1) as nat, p);
    }
}

/// Multiples add up.
pub proof fn times_plus<G: Group>(c: Set<G::Point>, j: nat, k: nat, p: G::Point)
    requires
        abelian::<G>(c),
        c.contains(p),
    ensures
        G::plus(times::<G>(j, p), times::<G>(k, p)) == times::<G>(j + k, p),
    decreases k,
{
    times_in::<G>(c, j, p);
    if k == 0 {
        assert(G::plus(times::<G>(j, p), G::identity()) == G::plus(
            G::identity(),
            times::<G>(j, p),
        ));
    } else {
        let i = (k - 1) as nat;
        times_plus::<G>(c, j, i, p);
        times_in::<G>(c, i, p);
        assert(G::plus(G::plus(times::<G>(j, p), times::<G>(i, p)), p) == G::plus(
            times::<G>(j, p),
            G::plus(times::<G>(i, p), p),
        ));
    }
}

/// Doubling `k` times is multiplying by `2^k`.
pub proof fn doubled_is_times<G: Group>(c: Set<G::Point>, p: G::Point, k: nat)
    requires
        abelian::<G>(c),
        c.contains(p),
    ensures
        doubled::<G>(p, k) == times::<G>(vstd::arithmetic::power2::pow2(k), p),
    decreases k,
{
    if k == 0 {
        vstd::arithmetic::power2::lemma2_to64();
        reveal_with_fuel(times, 2);
        assert(G::plus(G::identity(), p) == p);
    } else {
        let j = (k - 1) as nat;
        doubled_is_times::<G>(c, p, j);
        vstd::arithmetic::power2::lemma_pow2_unfold(k);
        let m = vstd::arithmetic::power2::pow2(j);
        times_plus::<G>(c, m, m, p);
    }
}

/// One point can be taken out of a sum.
pub proof fn sum_remove<G: Group>(c: Set<G::Point>, s: Seq<G::Point>, i: int)
    requires
        abelian::<G>(c),
        all_in(c, s),
        0 <= i < s.len(),
    ensures
        all_in(c, s.remove(i)),
        sum::<G>(s) == G::plus(sum::<G>(s.remove(i)), s[i]),
    decreases s.len(),
{
    let t = s.drop_last();
    assert(all_in(c, t));
    assert forall|k: int| 0 <= k < s.remove(i).len() implies c.contains(
        #[trigger] s.remove(i)[k],
    ) by {
        assert(s.remove(i)[k] == if k < i {
            s[k]
        } else {
            s[k + 1]
        });
    }
    if i == s.len() - 1 {
        assert(s.remove(i) =~= t);
    } else {
        sum_remove::<G>(c, t, i);
        assert(s.remove(i).drop_last() =~= t.remove(i));
        assert(s.remove(i).last() == s.last());
        let a = sum::<G>(t.remove(i));
        add_all_in::<G>(c, G::identity(), t.remove(i));
        let x = s[i];
        let z = s.last();
        assert(c.contains(x));
        assert(c.contains(s[s.len() - 1]));
        assert(G::plus(G::plus(a, x), z) == G::plus(a, G::plus(x, z)));
        assert(G::plus(G::plus(a, z), x) == G::plus(a, G::plus(z, x)));
        assert(G::plus(x, z) == G::plus(z, x));
    }
}

/// Two sums of the same length can be added term by term.
pub proof fn sum_pairwise<G: Group>(
    c: Set<G::Point>,
    f: spec_fn(int) -> G::Point,
    g: spec_fn(int) -> G::Point,
    n: nat,
)
    requires
        abelian::<G>(c),
        forall|i: int| 0 <= i < n ==> c.contains(#[trigger] f(i)),
        forall|i: int| 0 <= i < n ==> c.contains(#[trigger] g(i)),
    ensures
        sum::<G>(Seq::new(n, |i: int| G::plus(f(i), g(i)))) == G::plus(
            sum::<G>(Seq::new(n, f)),
            sum::<G>(Seq::new(n, g)),
        ),
    decreases n,
{
    let both = Seq::new(n, |i: int| G::plus(f(i), g(i)));
    if n == 0 {
        assert(both =~= Seq::empty());
        assert(Seq::new(n, f) =~= Seq::empty());
        assert(Seq::new(n, g) =~= Seq::empty());
        assert(G::plus(G::identity(), G::identity()) == G::identity());
    } else {
        let m = (n - 1) as nat;
        sum_pairwise::<G>(c, f, g, m);
        assert(both.drop_last() =~= Seq::new(m, |i: int| G::plus(f(i), g(i))));
        assert(Seq::new(n, f).drop_last() =~= Seq::new(m, f));
        assert(Seq::new(n, g).drop_last() =~= Seq::new(m, g));
        add_all_in::<G>(c, G::identity(), Seq::new(m, f));
        add_all_in::<G>(c, G::identity(), Seq::new(m, g));
        assert(c.contains(f(n - 1)) && c.contains(g(n - 1)));
        regroup::<G>(c, sum::<G>(Seq::new(m, f)), sum::<G>(Seq::new(m, g)), f(n - 1), g(n - 1));
    }
}

/// A sum of neutral elements is neutral.
pub proof fn sum_of_identities<G: Group>(c: Set<G::Point>, s: Seq<G::Point>)
    requires
        abelian::<G>(c),
        forall|i: int| 0 <= i < s.len() ==> #[trigger] s[i] == G::identity(),
    ensures
        sum::<G>(s) == G::identity(),
    decreases s.len(),
{
    if s.len() > 0 {
        let t = s.drop_last();
        assert forall|i: int| 0 <= i < t.len() implies #[trigger] t[i] == G::identity() by {
            assert(t[i] == s[i]);
        }
        sum_of_identities::<G>(c, t);
        assert(s.last() == s[s.len() - 1]);
        assert(G::plus(G::identity(), G::identity()) == G::identity());
    }
}

/// A sum with one term that is not neutral is that term.
pub proof fn sum_single<G: Group>(c: Set<G::Point>, s: Seq<G::Point>, k: int)
    requires
        abelian::<G>(c),
        0 <= k < s.len(),
        c.contains(s[k]),
        forall|i: int| 0 <= i < s.len() && i != k ==> #[trigger] s[i] == G::identity(),
    ensures
        sum::<G>(s) == s[k],
{
    assert forall|i: int| 0 <= i < s.len() implies c.contains(#[trigger] s[i]) by {
        if i != k {
            assert(s[i] == G::identity());
        }
    }
    sum_remove::<G>(c, s, k);
    let t = s.remove(k);
    assert forall|i: int| 0 <= i < t.len() implies #[trigger] t[i] == G::identity() by {
        assert(t[i] == if i < k {
            s[i]
        } else {
            s[i + 1]
        });
    }
    sum_of_identities::<G>(c, t);
    assert(G::plus(G::identity(), s[k]) == s[k]);
}

/// The terms of row `i` of a table.
pub open spec fn row<P>(f: spec_fn(int, int) -> P, i: int, m: nat) -> Seq<P> {
    Seq::new(m, |j: int| f(i, j))
}

/// The terms of column `j` of a table.
pub open spec fn column<P>(f: spec_fn(int, int) -> P, j: int, n: nat) -> Seq<P> {
    Seq::new(n, |i: int| f(i, j))
}

/// The terms of a table can be added row by row or column by column.
pub proof fn sum_exchange<G: Group>(
    c: Set<G::Point>,
    f: spec_fn(int, int) -> G::Point,
    n: nat,
    m: nat,
)
    requires
        abelian::<G>(c),
        forall|i: int, j: int| 0 <= i < n && 0 <= j < m ==> c.contains(#[trigger] f(i, j)),
    ensures
        sum::<G>(Seq::new(n, |i: int| sum::<G>(row(f, i, m)))) == sum::<G>(
            Seq::new(m, |j: int| sum::<G>(column(f, j, n))),
        ),
    decreases n,
{
    let by_row = Seq::new(n, |i: int| sum::<G>(row(f, i, m)));
    let by_column = Seq::new(m, |j: int| sum::<G>(column(f, j, n)));
    if n == 0 {
        assert(by_row =~= Seq::empty());
        assert forall|j: int| 0 <= j < m implies #[trigger] by_column[j] == G::identity() by {
            assert(column(f, j, n) =~= Seq::empty());
        }
        sum_of_identities::<G>(c, by_column);
    } else {
        let k = (n - 1) as nat;
        sum_exchange::<G>(c, f, k, m);
        assert(by_row.drop_last() =~= Seq::new(k, |i: int| sum::<G>(row(f, i, m))));
        let above = |j: int| sum::<G>(column(f, j, k));
        let last = |j: int| f(n - 1, j);
        assert forall|j: int| 0 <= j < m implies c.contains(#[trigger] above(j)) by {
            assert(all_in(c, column(f, j, k)));
            add_all_in::<G>(c, G::identity(), column(f, j, k));
        }
        assert forall|j: int| 0 <= j < m implies c.contains(#[trigger] last(j)) by {
            assert(c.contains(f(n - 1, j)));
        }
        sum_pairwise::<G>(c, above, last, m);
        assert(row(f, n - 1, m) =~= Seq::new(m, last));
        assert(Seq::new(k, |i: int| sum::<G>(row(f, i, m))) =~= by_row.drop_last());
        assert(Seq::new(m, above) =~= Seq::new(m, |j: int| sum::<G>(column(f, j, k))));
        let joined = Seq::new(m, |j: int| G::plus(above(j), last(j)));
        assert forall|j: int| 0 <= j < m implies by_column[j] == joined[j] by {
            assert(column(f, j, n).drop_last() =~= column(f, j, k));
        }
        assert(by_column =~= joined);
    }
}

/// Multiplying distributes over a sum of two.
pub proof fn times_of_plus<G: Group>(c: Set<G::Point>, k: nat, a: G::Point, b: G::Point)
    requires
        abelian::<G>(c),
        c.contains(a),
        c.contains(b),
    ensures
        times::<G>(k, G::plus(a, b)) == G::plus(times::<G>(k, a), times::<G>(k, b)),
    decreases k,
{
    if k == 0 {
        assert(G::plus(G::identity(), G::identity()) == G::identity());
    } else {
        let j = (k - 1) as nat;
        times_of_plus::<G>(c, j, a, b);
        times_in::<G>(c, j, a);
        times_in::<G>(c, j, b);
        regroup::<G>(c, times::<G>(j, a), times::<G>(j, b), a, b);
    }
}

/// A multiple of the neutral element is neutral.
pub proof fn times_identity<G: Group>(c: Set<G::Point>, k: nat)
    requires
        abelian::<G>(c),
    ensures
        times::<G>(k, G::identity()) == G::identity(),
    decreases k,
{
    if k > 0 {
        times_identity::<G>(c, (k - 1) as nat);
        assert(G::plus(G::identity(), G::identity()) == G::identity());
    }
}

/// A multiple of a sum is the sum of the multiples.
pub proof fn times_sum<G: Group>(c: Set<G::Point>, k: nat, s: Seq<G::Point>)
    requires
        abelian::<G>(c),
        all_in(c, s),
    ensures
        times::<G>(k, sum::<G>(s)) == sum::<G>(s.map_values(|p: G::Point| times::<G>(k, p))),
    decreases s.len(),
{
    let m = s.map_values(|p: G::Point| times::<G>(k, p));
    if s.len() == 0 {
        assert(m =~= Seq::empty());
        times_identity::<G>(c, k);
    } else {
        let t = s.drop_last();
        assert(all_in(c, t));
        times_sum::<G>(c, k, t);
        assert(m.drop_last() =~= t.map_values(|p: G::Point| times::<G>(k, p)));
        add_all_in::<G>(c, G::identity(), t);
        assert(c.contains(s[s.len() - 1]));
        times_of_plus::<G>(c, k, sum::<G>(t), s.last());
    }
}

} // verus!
