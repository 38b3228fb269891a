//! The two groups of the BN254 curve, and their points as the device reads them.
//!
//! A point is `None` at infinity and its two affine coordinates otherwise. The arithmetic is that
//! of `ark_bn254`.

use vstd::prelude::*;

use crate::field::{Fq, Fq2, Fr};
use crate::group::Group;

verus! {

/// The field that the coordinates of a point are in.
pub trait Coordinate: Sized {
    spec fn zero() -> Self;

    spec fn plus(self, other: Self) -> Self;

    spec fn minus(self, other: Self) -> Self;

    spec fn times(self, other: Self) -> Self;

    /// The inverse of an element that is not zero.
    spec fn inverse(self) -> Self;
}

/// A number modulo the order of the base field.
pub struct Mod {
    pub v: nat,
}

/// A pair `c0 + c1 * u` of such numbers, where `u * u == -1`.
pub struct Mod2 {
    pub c0: Mod,
    pub c1: Mod,
}

/// The residue of a number.
pub open spec fn residue(v: int) -> Mod {
    Mod { v: (v % (crate::field::fq_modulus() as int)) as nat }
}

impl Coordinate for Mod {
    open spec fn zero() -> Self {
        Mod { v: 0 }
    }

    open spec fn plus(self, other: Self) -> Self {
        residue((self.v + other.v) as int)
    }

    open spec fn minus(self, other: Self) -> Self {
        residue(self.v - other.v)
    }

    open spec fn times(self, other: Self) -> Self {
        residue((self.v * other.v) as int)
    }

    /// By Fermat's little theorem.
    open spec fn inverse(self) -> Self {
        residue(
            vstd::arithmetic::power::pow(
                self.v as int,
                (crate::field::fq_modulus() - 2) as nat,
            ),
        )
    }
}

impl Coordinate for Mod2 {
    open spec fn zero() -> Self {
        Mod2 { c0: Mod { v: 0 }, c1: Mod { v: 0 } }
    }

    open spec fn plus(self, other: Self) -> Self {
        Mod2 { c0: self.c0.plus(other.c0), c1: self.c1.plus(other.c1) }
    }

    open spec fn minus(self, other: Self) -> Self {
        Mod2 { c0: self.c0.minus(other.c0), c1: self.c1.minus(other.c1) }
    }

    open spec fn times(self, other: Self) -> Self {
        Mod2 {
            c0: self.c0.times(other.c0).minus(self.c1.times(other.c1)),
            c1: self.c0.times(other.c1).plus(self.c1.times(other.c0)),
        }
    }

    /// The conjugate over the norm.
    open spec fn inverse(self) -> Self {
        let norm = self.c0.times(self.c0).plus(self.c1.times(self.c1));
        Mod2 {
            c0: self.c0.times(norm.inverse()),
            c1: Mod { v: 0 }.minus(self.c1.times(norm.inverse())),
        }
    }
}

/// The third point on the line with the given slope through two points, mirrored.
pub open spec fn third_point<K: Coordinate>(slope: K, x1: K, y1: K, x2: K) -> (K, K) {
    let x3 = slope.times(slope).minus(x1).minus(x2);
    (x3, slope.times(x1.minus(x3)).minus(y1))
}

/// The sum of two points of a curve `y^2 = x^3 + b`, by chords and tangents.
pub open spec fn curve_sum<K: Coordinate>(p: Option<(K, K)>, q: Option<(K, K)>) -> Option<(K, K)> {
    match (p, q) {
        (None, _) => q,
        (_, None) => p,
        (Some((x1, y1)), Some((x2, y2))) => if x1 != x2 {
            let slope = y2.minus(y1).times(x2.minus(x1).inverse());
            Some(third_point(slope, x1, y1, x2))
        } else if y1 == y2 && y1 != K::zero() {
            let xx = x1.times(x1);
            let slope = xx.plus(xx).plus(xx).times(y1.plus(y1).inverse());
            Some(third_point(slope, x1, y1, x2))
        } else {
            None
        },
    }
}

/// The point with the given Jacobian coordinates.
pub open spec fn jacobian_point<K: Coordinate>(x: K, y: K, z: K) -> Option<(K, K)> {
    if z == K::zero() {
        None
    } else {
        let i = z.inverse();
        Some((x.times(i.times(i)), y.times(i.times(i).times(i))))
    }
}

/// The residue that Montgomery limbs of the base field stand for.
pub open spec fn coord(limbs: [u64; 4]) -> Mod {
    Mod {
        v: (crate::field::num(limbs) * crate::field::fq_radix_inverse())
            % crate::field::fq_modulus(),
    }
}

/// The pair of residues that two times four limbs stand for.
pub open spec fn coord2(limbs: [[u64; 4]; 2]) -> Mod2 {
    Mod2 { c0: coord(limbs[0]), c1: coord(limbs[1]) }
}

/// Whether limbs are reduced.
pub open spec fn reduced(limbs: [u64; 4]) -> bool {
    crate::field::num(limbs) < crate::field::fq_modulus()
}

/// Whether both elements are reduced.
pub open spec fn reduced2(limbs: [[u64; 4]; 2]) -> bool {
    reduced(limbs[0]) && reduced(limbs[1])
}

/// The point with Jacobian coordinates of the first group.
pub open spec fn jacobian1(p: [[u64; 4]; 3]) -> Option<(Mod, Mod)> {
    jacobian_point(coord(p[0]), coord(p[1]), coord(p[2]))
}

/// The point with Jacobian coordinates of the second group.
pub open spec fn jacobian2(p: [[[u64; 4]; 2]; 3]) -> Option<(Mod2, Mod2)> {
    jacobian_point(coord2(p[0]), coord2(p[1]), coord2(p[2]))
}

/// `AddAssign<&Projective>` of `ark_bn254::G1Projective`.
///
/// On reduced coordinates it gives reduced coordinates of the sum by chords and tangents.
#[verifier::external_body]
fn g1_add(a: [[u64; 4]; 3], b: [[u64; 4]; 3]) -> (r: [[u64; 4]; 3])
    requires
        reduced(a[0]) && reduced(a[1]) && reduced(a[2]),
        reduced(b[0]) && reduced(b[1]) && reduced(b[2]),
    ensures
        reduced(r[0]) && reduced(r[1]) && reduced(r[2]),
        jacobian1(r) == curve_sum(jacobian1(a), jacobian1(b)),
{
    let [x, y, z] = a.map(|c| ark_bn254::Fq::new_unchecked(ark_ff::BigInt::new(c)));
    let mut p = ark_bn254::G1Projective::new_unchecked(x, y, z);
    let [x, y, z] = b.map(|c| ark_bn254::Fq::new_unchecked(ark_ff::BigInt::new(c)));
    p += &ark_bn254::G1Projective::new_unchecked(x, y, z);
    [p.x.0.0, p.y.0.0, p.z.0.0]
}

/// `AdditiveGroup::double` of `ark_bn254::G1Projective`.
///
/// On reduced coordinates it gives reduced coordinates of the sum of the point with itself.
#[verifier::external_body]
fn g1_double(a: [[u64; 4]; 3]) -> (r: [[u64; 4]; 3])
    requires
        reduced(a[0]) && reduced(a[1]) && reduced(a[2]),
    ensures
        reduced(r[0]) && reduced(r[1]) && reduced(r[2]),
        jacobian1(r) == curve_sum(jacobian1(a), jacobian1(a)),
{
    let [x, y, z] = a.map(|c| ark_bn254::Fq::new_unchecked(ark_ff::BigInt::new(c)));
    let p = ark_bn254::G1Projective::new_unchecked(x, y, z);
    let p = ark_ff::AdditiveGroup::double(&p);
    [p.x.0.0, p.y.0.0, p.z.0.0]
}

/// `CurveGroup::into_affine` of `ark_bn254::G1Projective`.
///
/// On reduced coordinates it gives the reduced affine coordinates of the same point, and whether
/// the point is at infinity.
#[verifier::external_body]
fn g1_into_affine(a: [[u64; 4]; 3]) -> (r: ([u64; 4], [u64; 4], bool))
    requires
        reduced(a[0]) && reduced(a[1]) && reduced(a[2]),
    ensures
        reduced(r.0) && reduced(r.1),
        r.2 == (jacobian1(a) is None),
        !r.2 ==> jacobian1(a) == Some((coord(r.0), coord(r.1))),
{
    let [x, y, z] = a.map(|c| ark_bn254::Fq::new_unchecked(ark_ff::BigInt::new(c)));
    let p = ark_bn254::G1Projective::new_unchecked(x, y, z);
    let p = ark_ec::CurveGroup::into_affine(p);
    (p.x.0.0, p.y.0.0, p.infinity)
}

/// `From<Affine>` of `ark_bn254::G1Projective`, on a point that is not at infinity.
///
/// On reduced coordinates it gives reduced Jacobian coordinates of the same point.
#[verifier::external_body]
fn g1_from_affine(x: [u64; 4], y: [u64; 4]) -> (r: [[u64; 4]; 3])
    requires
        reduced(x) && reduced(y),
    ensures
        reduced(r[0]) && reduced(r[1]) && reduced(r[2]),
        jacobian1(r) == Some((coord(x), coord(y))),
{
    let x = ark_bn254::Fq::new_unchecked(ark_ff::BigInt::new(x));
    let y = ark_bn254::Fq::new_unchecked(ark_ff::BigInt::new(y));
    let p = ark_bn254::G1Projective::from(ark_bn254::G1Affine::new_unchecked(x, y));
    [p.x.0.0, p.y.0.0, p.z.0.0]
}

/// The constant `AdditiveGroup::ZERO` of `ark_bn254::G1Projective`: reduced coordinates of the
/// point at infinity.
#[verifier::external_body]
fn g1_zero() -> (r: [[u64; 4]; 3])
    ensures
        reduced(r[0]) && reduced(r[1]) && reduced(r[2]),
        jacobian1(r) == None::<(Mod, Mod)>,
{
    let p = <ark_bn254::G1Projective as ark_ff::AdditiveGroup>::ZERO;
    [p.x.0.0, p.y.0.0, p.z.0.0]
}

/// Jacobian coordinates of a point of the first group.
#[derive(Copy, Clone, Debug, PartialEq, Eq)]
pub struct G1Projective {
    pub x: Fq,
    pub y: Fq,
    pub z: Fq,
}

/// A point of the first group.
#[derive(Copy, Clone, Debug, PartialEq, Eq)]
pub struct G1Affine {
    pub x: Fq,
    pub y: Fq,
    pub infinity: bool,
}

impl Fq {
    /// The residue that an element stands for.
    pub open spec fn residue(&self) -> Mod {
        Mod { v: self.value() }
    }
}

impl Fq2 {
    /// The pair of residues that an element stands for.
    pub open spec fn residues(&self) -> Mod2 {
        Mod2 { c0: self.c0.residue(), c1: self.c1.residue() }
    }
}

impl G1Projective {
    /// The limbs of the coordinates.
    fn raw(&self) -> (r: [[u64; 4]; 3])
        ensures
            reduced(r[0]) && reduced(r[1]) && reduced(r[2]),
            jacobian1(r) == self.point(),
    {
        [self.x.mont_limbs(), self.y.mont_limbs(), self.z.mont_limbs()]
    }

    fn from_raw(r: [[u64; 4]; 3]) -> (p: Self)
        requires
            reduced(r[0]) && reduced(r[1]) && reduced(r[2]),
        ensures
            p.point() == jacobian1(r),
    {
        G1Projective {
            x: Fq::from_reduced(r[0]),
            y: Fq::from_reduced(r[1]),
            z: Fq::from_reduced(r[2]),
        }
    }
}

impl Group for G1Projective {
    type Point = Option<(Mod, Mod)>;

    open spec fn point(&self) -> Option<(Mod, Mod)> {
        jacobian_point(self.x.residue(), self.y.residue(), self.z.residue())
    }

    open spec fn identity() -> Option<(Mod, Mod)> {
        None
    }

    open spec fn plus(a: Option<(Mod, Mod)>, b: Option<(Mod, Mod)>) -> Option<(Mod, Mod)> {
        curve_sum(a, b)
    }

    fn zero() -> (r: Self) {
        G1Projective::from_raw(g1_zero())
    }

    fn added(&self, other: &Self) -> (r: Self) {
        G1Projective::from_raw(g1_add(self.raw(), other.raw()))
    }

    fn double(&self) -> (r: Self) {
        G1Projective::from_raw(g1_double(self.raw()))
    }
}

/// `AddAssign<&Projective>` of `ark_bn254::G2Projective`.
///
/// On reduced coordinates it gives reduced coordinates of the sum by chords and tangents.
#[verifier::external_body]
fn g2_add(a: [[[u64; 4]; 2]; 3], b: [[[u64; 4]; 2]; 3]) -> (r: [[[u64; 4]; 2]; 3])
    requires
        reduced2(a[0]) && reduced2(a[1]) && reduced2(a[2]),
        reduced2(b[0]) && reduced2(b[1]) && reduced2(b[2]),
    ensures
        reduced2(r[0]) && reduced2(r[1]) && reduced2(r[2]),
        jacobian2(r) == curve_sum(jacobian2(a), jacobian2(b)),
{
    let fq = |c: [u64; 4]| ark_bn254::Fq::new_unchecked(ark_ff::BigInt::new(c));
    let [x, y, z] = a.map(|c| ark_bn254::Fq2::new(fq(c[0]), fq(c[1])));
    let mut p = ark_bn254::G2Projective::new_unchecked(x, y, z);
    let [x, y, z] = b.map(|c| ark_bn254::Fq2::new(fq(c[0]), fq(c[1])));
    p += &ark_bn254::G2Projective::new_unchecked(x, y, z);
    [p.x, p.y, p.z].map(|c| [c.c0.0.0, c.c1.0.0])
}

/// `AdditiveGroup::double` of `ark_bn254::G2Projective`.
///
/// On reduced coordinates it gives reduced coordinates of the sum of the point with itself.
#[verifier::external_body]
fn g2_double(a: [[[u64; 4]; 2]; 3]) -> (r: [[[u64; 4]; 2]; 3])
    requires
        reduced2(a[0]) && reduced2(a[1]) && reduced2(a[2]),
    ensures
        reduced2(r[0]) && reduced2(r[1]) && reduced2(r[2]),
        jacobian2(r) == curve_sum(jacobian2(a), jacobian2(a)),
{
    let fq = |c: [u64; 4]| ark_bn254::Fq::new_unchecked(ark_ff::BigInt::new(c));
    let [x, y, z] = a.map(|c| ark_bn254::Fq2::new(fq(c[0]), fq(c[1])));
    let p = ark_bn254::G2Projective::new_unchecked(x, y, z);
    let p = ark_ff::AdditiveGroup::double(&p);
    [p.x, p.y, p.z].map(|c| [c.c0.0.0, c.c1.0.0])
}

/// `CurveGroup::into_affine` of `ark_bn254::G2Projective`.
///
/// On reduced coordinates it gives the reduced affine coordinates of the same point, and whether
/// the point is at infinity.
#[verifier::external_body]
fn g2_into_affine(a: [[[u64; 4]; 2]; 3]) -> (r: ([[u64; 4]; 2], [[u64; 4]; 2], bool))
    requires
        reduced2(a[0]) && reduced2(a[1]) && reduced2(a[2]),
    ensures
        reduced2(r.0) && reduced2(r.1),
        r.2 == (jacobian2(a) is None),
        !r.2 ==> jacobian2(a) == Some((coord2(r.0), coord2(r.1))),
{
    let fq = |c: [u64; 4]| ark_bn254::Fq::new_unchecked(ark_ff::BigInt::new(c));
    let [x, y, z] = a.map(|c| ark_bn254::Fq2::new(fq(c[0]), fq(c[1])));
    let p = ark_bn254::G2Projective::new_unchecked(x, y, z);
    let p = ark_ec::CurveGroup::into_affine(p);
    ([p.x.c0.0.0, p.x.c1.0.0], [p.y.c0.0.0, p.y.c1.0.0], p.infinity)
}

/// `From<Affine>` of `ark_bn254::G2Projective`, on a point that is not at infinity.
///
/// On reduced coordinates it gives reduced Jacobian coordinates of the same point.
#[verifier::external_body]
fn g2_from_affine(x: [[u64; 4]; 2], y: [[u64; 4]; 2]) -> (r: [[[u64; 4]; 2]; 3])
    requires
        reduced2(x) && reduced2(y),
    ensures
        reduced2(r[0]) && reduced2(r[1]) && reduced2(r[2]),
        jacobian2(r) == Some((coord2(x), coord2(y))),
{
    let fq = |c: [u64; 4]| ark_bn254::Fq::new_unchecked(ark_ff::BigInt::new(c));
    let x = ark_bn254::Fq2::new(fq(x[0]), fq(x[1]));
    let y = ark_bn254::Fq2::new(fq(y[0]), fq(y[1]));
    let p = ark_bn254::G2Projective::from(ark_bn254::G2Affine::new_unchecked(x, y));
    [p.x, p.y, p.z].map(|c| [c.c0.0.0, c.c1.0.0])
}

/// The constant `AdditiveGroup::ZERO` of `ark_bn254::G2Projective`: reduced coordinates of the
/// point at infinity.
#[verifier::external_body]
fn g2_zero() -> (r: [[[u64; 4]; 2]; 3])
    ensures
        reduced2(r[0]) && reduced2(r[1]) && reduced2(r[2]),
        jacobian2(r) == None::<(Mod2, Mod2)>,
{
    let p = <ark_bn254::G2Projective as ark_ff::AdditiveGroup>::ZERO;
    [p.x, p.y, p.z].map(|c| [c.c0.0.0, c.c1.0.0])
}

/// Jacobian coordinates of a point of the second group.
#[derive(Copy, Clone, Debug, PartialEq, Eq)]
pub struct G2Projective {
    pub x: Fq2,
    pub y: Fq2,
    pub z: Fq2,
}

/// A point of the second group.
#[derive(Copy, Clone, Debug, PartialEq, Eq)]
pub struct G2Affine {
    pub x: Fq2,
    pub y: Fq2,
    pub infinity: bool,
}

/// The limbs of an element of the extension.
fn limbs2(f: &Fq2) -> (r: [[u64; 4]; 2])
    ensures
        reduced2(r),
        coord2(r) == f.residues(),
{
    [f.c0.mont_limbs(), f.c1.mont_limbs()]
}

/// The element of the extension with the given limbs.
fn fq2_from(r: [[u64; 4]; 2]) -> (f: Fq2)
    requires
        reduced2(r),
    ensures
        f.residues() == coord2(r),
{
    Fq2 { c0: Fq::from_reduced(r[0]), c1: Fq::from_reduced(r[1]) }
}

impl G2Projective {
    /// The limbs of the coordinates.
    fn raw(&self) -> (r: [[[u64; 4]; 2]; 3])
        ensures
            reduced2(r[0]) && reduced2(r[1]) && reduced2(r[2]),
            jacobian2(r) == self.point(),
    {
        [limbs2(&self.x), limbs2(&self.y), limbs2(&self.z)]
    }

    fn from_raw(r: [[[u64; 4]; 2]; 3]) -> (p: Self)
        requires
            reduced2(r[0]) && reduced2(r[1]) && reduced2(r[2]),
        ensures
            p.point() == jacobian2(r),
    {
        G2Projective { x: fq2_from(r[0]), y: fq2_from(r[1]), z: fq2_from(r[2]) }
    }
}

impl Group for G2Projective {
    type Point = Option<(Mod2, Mod2)>;

    open spec fn point(&self) -> Option<(Mod2, Mod2)> {
        jacobian_point(self.x.residues(), self.y.residues(), self.z.residues())
    }

    open spec fn identity() -> Option<(Mod2, Mod2)> {
        None
    }

    open spec fn plus(a: Option<(Mod2, Mod2)>, b: Option<(Mod2, Mod2)>) -> Option<(Mod2, Mod2)> {
        curve_sum(a, b)
    }

    fn zero() -> (r: Self) {
        G2Projective::from_raw(g2_zero())
    }

    fn added(&self, other: &Self) -> (r: Self) {
        G2Projective::from_raw(g2_add(self.raw(), other.raw()))
    }

    fn double(&self) -> (r: Self) {
        G2Projective::from_raw(g2_double(self.raw()))
    }
}

/// Trait for curve affine points that have a GPU-compatible representation.
pub trait GpuAffine: Sized + Copy {
    /// The GPU-compatible representation type.
    type GpuRepr: Copy;

    /// The scalar field type.
    type ScalarField: crate::field::PrimeField;

    /// The projective group type.
    type Group: Group;

    /// The point.
    spec fn affine_point(&self) -> <Self::Group as Group>::Point;

    /// Whether a value is the representation of a point on the device.
    spec fn represents(r: Self::GpuRepr, p: <Self::Group as Group>::Point) -> bool;

    /// Convert the affine point to its GPU representation.
    fn to_gpu(&self) -> (r: Self::GpuRepr)
        ensures
            Self::represents(r, self.affine_point()),
    ;

    /// The same point in projective coordinates.
    fn to_group(&self) -> (r: Self::Group)
        ensures
            r.point() == self.affine_point(),
    ;

    /// The same point in affine coordinates.
    fn from_group(p: &Self::Group) -> (r: Self)
        ensures
            r.affine_point() == p.point(),
    ;

    /// The representation of the point at infinity.
    fn default_repr() -> (r: Self::GpuRepr)
        ensures
            Self::represents(r, <Self::Group as Group>::identity()),
    ;
}

/// GPU-compatible representation of an affine point.
/// Coordinates are stored as 32-byte little-endian field elements in Montgomery form.
#[derive(Copy, Clone, Debug, PartialEq, Eq)]
pub struct G1AffineM {
    /// X coordinate as 32 bytes in little-endian Montgomery form
    pub x: [u8; 32],
    /// Y coordinate as 32 bytes in little-endian Montgomery form
    pub y: [u8; 32],
}

/// GPU-compatible representation of a G2 affine point.
/// Coordinates are stored as 64-byte little-endian Fq2 elements (each Fq2 = two 32-byte Fq elements).
#[derive(Copy, Clone, Debug, PartialEq, Eq)]
pub struct G2AffineM {
    /// X coordinate as Fq2 (64 bytes: c0 followed by c1)
    pub x: [u8; 64],
    /// Y coordinate as Fq2 (64 bytes: c0 followed by c1)
    pub y: [u8; 64],
}

/// The bytes of the Montgomery form of a residue.
pub open spec fn mont_bytes(m: Mod) -> Seq<u8> {
    crate::limbs::le_bytes((m.v * crate::field::radix()) % crate::field::fq_modulus(), 32)
}

/// The bytes of the Montgomery form of a pair of residues.
pub open spec fn mont_bytes2(m: Mod2) -> Seq<u8> {
    mont_bytes(m.c0) + mont_bytes(m.c1)
}

/// `n` bytes that are zero.
pub open spec fn zero_bytes(n: nat) -> Seq<u8> {
    Seq::new(n, |i: int| 0u8)
}

impl G1AffineM {
    /// Whether this is the representation of a point: zeros at infinity, the Montgomery forms of
    /// the coordinates elsewhere.
    pub open spec fn is_repr(&self, p: Option<(Mod, Mod)>) -> bool {
        match p {
            None => self.x@ == zero_bytes(32) && self.y@ == zero_bytes(32),
            Some((x, y)) => self.x@ == mont_bytes(x) && self.y@ == mont_bytes(y),
        }
    }
}

impl G2AffineM {
    /// Whether this is the representation of a point: zeros at infinity, the Montgomery forms of
    /// the coordinates elsewhere.
    pub open spec fn is_repr(&self, p: Option<(Mod2, Mod2)>) -> bool {
        match p {
            None => self.x@ == zero_bytes(64) && self.y@ == zero_bytes(64),
            Some((x, y)) => self.x@ == mont_bytes2(x) && self.y@ == mont_bytes2(y),
        }
    }
}

impl Default for G1AffineM {
    fn default() -> (r: Self)
        ensures
            r.is_repr(None),
    {
        let r = G1AffineM { x: [0u8; 32], y: [0u8; 32] };
        assert(r.x@ =~= zero_bytes(32) && r.y@ =~= zero_bytes(32));
        r
    }
}

impl Default for G2AffineM {
    fn default() -> (r: Self)
        ensures
            r.is_repr(None),
    {
        let r = G2AffineM { x: [0u8; 64], y: [0u8; 64] };
        assert(r.x@ =~= zero_bytes(64) && r.y@ =~= zero_bytes(64));
        r
    }
}

/// The bytes of the Montgomery form of an element.
fn fq_to_montgomery_bytes(f: &Fq) -> (out: [u8; 32])
    ensures
        out@ == mont_bytes(f.residue()),
{
    let limbs = f.mont_limbs();
    let mut out: [u8; 32] = [0u8; 32];
    let mut i: usize = 0;
    let ghost want = mont_bytes(f.residue());
    while i < 4
        invariant
            i <= 4,
            want == crate::limbs::le_bytes(crate::field::num(limbs), 32),
            forall|j: int| 0 <= j < 8 * i ==> out@[j] == want[j],
        decreases 4 - i,
    {
        let mut v: u64 = limbs[i];
        let mut k: usize = 0;
        assert(v / 1 == v);
        while k < 8
            invariant
                i < 4,
                k <= 8,
                want == crate::limbs::le_bytes(crate::field::num(limbs), 32),
                v == (limbs@[i as int] as nat) / crate::limbs::pow256(k as nat),
                forall|j: int| 0 <= j < 8 * i + k ==> out@[j] == want[j],
            decreases 8 - k,
        {
            proof {
                crate::limbs::le_bytes_of_limbs(limbs@, i as int, k as nat);
                crate::limbs::pow256_adds(k as nat, 1);
                vstd::arithmetic::div_mod::lemma_div_denominator(
                    limbs@[i as int] as int,
                    crate::limbs::pow256(k as nat) as int,
                    256,
                );
                let p = crate::limbs::pow256(k as nat) as int;
                assert(p * 256 == 256 * p);
            }
            out[8 * i + k] = (v % 256) as u8;
            v = v / 256;
            k = k + 1;
        }
        i = i + 1;
    }
    proof {
        crate::limbs::le_bytes_len(crate::field::num(limbs), 32);
        assert(out@ =~= want);
    }
    out
}

/// The bytes of the Montgomery form of an element of the extension.
fn fq2_to_montgomery_bytes(f: &Fq2) -> (out: [u8; 64])
    ensures
        out@ == mont_bytes2(f.residues()),
{
    let low = fq_to_montgomery_bytes(&f.c0);
    let high = fq_to_montgomery_bytes(&f.c1);
    let mut out: [u8; 64] = [0u8; 64];
    let mut i: usize = 0;
    while i < 32
        invariant
            i <= 32,
            forall|j: int| 0 <= j < i ==> out@[j] == low@[j],
            forall|j: int| 0 <= j < i ==> out@[32 + j] == high@[j],
        decreases 32 - i,
    {
        out[i] = low[i];
        out[32 + i] = high[i];
        i = i + 1;
    }
    assert forall|j: int| 32 <= j < 64 implies out@[j] == high@[j - 32] by {
        let k = j - 32;
        assert(out@[32 + k] == high@[k]);
    }
    assert(out@ =~= low@ + high@);
    out
}

/// A point has one representation.
proof fn g1_repr_unique(a: G1AffineM, b: G1AffineM, p: Option<(Mod, Mod)>)
    requires
        a.is_repr(p),
        b.is_repr(p),
    ensures
        a == b,
{
    assert(a.x =~= b.x && a.y =~= b.y);
}

/// A point has one representation.
proof fn g2_repr_unique(a: G2AffineM, b: G2AffineM, p: Option<(Mod2, Mod2)>)
    requires
        a.is_repr(p),
        b.is_repr(p),
    ensures
        a == b,
{
    assert(a.x =~= b.x && a.y =~= b.y);
}

impl G1Affine {
    /// The point.
    pub open spec fn point(&self) -> Option<(Mod, Mod)> {
        if self.infinity {
            None
        } else {
            Some((self.x.residue(), self.y.residue()))
        }
    }
}

impl G2Affine {
    /// The point.
    pub open spec fn point(&self) -> Option<(Mod2, Mod2)> {
        if self.infinity {
            None
        } else {
            Some((self.x.residues(), self.y.residues()))
        }
    }
}

impl<'a> vstd::std_specs::convert::FromSpecImpl<&'a G1Affine> for G1AffineM {
    open spec fn obeys_from_spec() -> bool {
        true
    }

    /// The representation of the point.
    open spec fn from_spec(p: &'a G1Affine) -> Self {
        choose|r: G1AffineM| r.is_repr(p.point())
    }
}

impl<'a> From<&'a G1Affine> for G1AffineM {
    fn from(p: &'a G1Affine) -> (r: Self)
        ensures
            r.is_repr(p.point()),
    {
        G1AffineM::from(*p)
    }
}

impl vstd::std_specs::convert::FromSpecImpl<G1Affine> for G1AffineM {
    open spec fn obeys_from_spec() -> bool {
        true
    }

    /// The representation of the point.
    open spec fn from_spec(p: G1Affine) -> Self {
        choose|r: G1AffineM| r.is_repr(p.point())
    }
}

impl From<G1Affine> for G1AffineM {
    fn from(p: G1Affine) -> (r: Self)
        ensures
            r.is_repr(p.point()),
    {
        let r = if p.infinity {
            G1AffineM::default()
        } else {
            G1AffineM { x: fq_to_montgomery_bytes(&p.x), y: fq_to_montgomery_bytes(&p.y) }
        };
        proof {
            let chosen = choose|s: G1AffineM| s.is_repr(p.point());
            assert(r.is_repr(p.point()));
            g1_repr_unique(r, chosen, p.point());
        }
        r
    }
}

impl<'a> vstd::std_specs::convert::FromSpecImpl<&'a G2Affine> for G2AffineM {
    open spec fn obeys_from_spec() -> bool {
        true
    }

    /// The representation of the point.
    open spec fn from_spec(p: &'a G2Affine) -> Self {
        choose|r: G2AffineM| r.is_repr(p.point())
    }
}

impl<'a> From<&'a G2Affine> for G2AffineM {
    fn from(p: &'a G2Affine) -> (r: Self)
        ensures
            r.is_repr(p.point()),
    {
        G2AffineM::from(*p)
    }
}

impl vstd::std_specs::convert::FromSpecImpl<G2Affine> for G2AffineM {
    open spec fn obeys_from_spec() -> bool {
        true
    }

    /// The representation of the point.
    open spec fn from_spec(p: G2Affine) -> Self {
        choose|r: G2AffineM| r.is_repr(p.point())
    }
}

impl From<G2Affine> for G2AffineM {
    fn from(p: G2Affine) -> (r: Self)
        ensures
            r.is_repr(p.point()),
    {
        let r = if p.infinity {
            G2AffineM::default()
        } else {
            G2AffineM { x: fq2_to_montgomery_bytes(&p.x), y: fq2_to_montgomery_bytes(&p.y) }
        };
        proof {
            let chosen = choose|s: G2AffineM| s.is_repr(p.point());
            assert(r.is_repr(p.point()));
            g2_repr_unique(r, chosen, p.point());
        }
        r
    }
}

impl GpuAffine for G1Affine {
    type GpuRepr = G1AffineM;

    type ScalarField = Fr;

    type Group = G1Projective;

    open spec fn affine_point(&self) -> Option<(Mod, Mod)> {
        self.point()
    }

    open spec fn represents(r: G1AffineM, p: Option<(Mod, Mod)>) -> bool {
        r.is_repr(p)
    }

    fn to_gpu(&self) -> (r: G1AffineM) {
        G1AffineM::from(*self)
    }

    fn to_group(&self) -> (r: G1Projective) {
        if self.infinity {
            G1Projective::zero()
        } else {
            G1Projective::from_raw(g1_from_affine(self.x.mont_limbs(), self.y.mont_limbs()))
        }
    }

    fn from_group(p: &G1Projective) -> (r: Self) {
        let (x, y, infinity) = g1_into_affine(p.raw());
        G1Affine { x: Fq::from_reduced(x), y: Fq::from_reduced(y), infinity }
    }

    fn default_repr() -> (r: G1AffineM) {
        G1AffineM::default()
    }
}

impl GpuAffine for G2Affine {
    type GpuRepr = G2AffineM;

    type ScalarField = Fr;

    type Group = G2Projective;

    open spec fn affine_point(&self) -> Option<(Mod2, Mod2)> {
        self.point()
    }

    open spec fn represents(r: G2AffineM, p: Option<(Mod2, Mod2)>) -> bool {
        r.is_repr(p)
    }

    fn to_gpu(&self) -> (r: G2AffineM) {
        G2AffineM::from(*self)
    }

    fn to_group(&self) -> (r: G2Projective) {
        if self.infinity {
            G2Projective::zero()
        } else {
            G2Projective::from_raw(g2_from_affine(limbs2(&self.x), limbs2(&self.y)))
        }
    }

    fn from_group(p: &G2Projective) -> (r: Self) {
        let (x, y, infinity) = g2_into_affine(p.raw());
        G2Affine { x: fq2_from(x), y: fq2_from(y), infinity }
    }

    fn default_repr() -> (r: G2AffineM) {
        G2AffineM::default()
    }
}

} // verus!
