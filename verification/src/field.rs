//! The fields of the BN254 curve.
//!
//! Elements are held as the device holds them, as four 64 bit limbs in Montgomery form: the limbs
//! of `v * 2^256` modulo the modulus stand for `v`. The arithmetic itself is that of `ark_bn254`.

use vstd::prelude::*;

use crate::limbs::bytes_to_u32_limbs;

verus! {

/// The order of the base field.
pub open spec fn fq_modulus() -> nat {
    21888242871839275222246405745257275088696311157297823662689037894645226208583nat
}

/// The order of the scalar field.
pub open spec fn fr_modulus() -> nat {
    21888242871839275222246405745257275088548364400416034343698204186575808495617nat
}

/// The Montgomery radix, `2^256`.
pub open spec fn radix() -> nat {
    0x1_0000_0000_0000_0000_0000_0000_0000_0000_0000_0000_0000_0000_0000_0000_0000_0000nat
}

/// The inverse of the radix in the base field.
pub open spec fn fq_radix_inverse() -> nat {
    20988524275117001072002809824448087578619730785600314334253784976379291040311nat
}

/// The inverse of the radix in the scalar field.
pub open spec fn fr_radix_inverse() -> nat {
    9915499612839321149637521777990102151350674507940716049588462388200839649614nat
}

/// The number that four limbs stand for.
pub open spec fn num(limbs: [u64; 4]) -> nat {
    crate::limbs::limbs_value(limbs@)
}

/// The decimal digits of a number, without leading zeros.
pub open spec fn decimal(n: nat) -> Seq<char>
    decreases n,
{
    if n < 10 {
        seq![(48 + n) as char]
    } else {
        decimal(n / 10).push((48 + n % 10) as char)
    }
}

/// The inverses of the radix are its inverses.
pub proof fn radix_inverses()
    ensures
        (radix() * fq_radix_inverse()) % fq_modulus() == 1,
        (radix() * fr_radix_inverse()) % fr_modulus() == 1,
{
    let a = radix() as int;
    let b = fq_radix_inverse() as int;
    let c = fr_radix_inverse() as int;
    assert((a * b) % 21888242871839275222246405745257275088696311157297823662689037894645226208583int
        == 1) by (nonlinear_arith)
        requires
            a
                == 0x1_0000_0000_0000_0000_0000_0000_0000_0000_0000_0000_0000_0000_0000_0000_0000_0000int,
            b == 20988524275117001072002809824448087578619730785600314334253784976379291040311int,
    ;
    assert((a * c) % 21888242871839275222246405745257275088548364400416034343698204186575808495617int
        == 1) by (nonlinear_arith)
        requires
            a
                == 0x1_0000_0000_0000_0000_0000_0000_0000_0000_0000_0000_0000_0000_0000_0000_0000_0000int,
            c == 9915499612839321149637521777990102151350674507940716049588462388200839649614int,
    ;
}

/// Leaving Montgomery form turns sums into sums, differences into differences and products into
/// products.
pub proof fn leaving_montgomery(a: int, b: int, k: int, p: int)
    requires
        p > 0,
    ensures
        (((a + b) % p) * k) % p == ((a * k) % p + (b * k) % p) % p,
        (((a - b) % p) * k) % p == ((a * k) % p - (b * k) % p) % p,
        ((((a * b) * k) % p) * k) % p == (((a * k) % p) * ((b * k) % p)) % p,
{
    broadcast use {
        vstd::arithmetic::div_mod::lemma_mul_mod_noop_left,
        vstd::arithmetic::div_mod::lemma_mul_mod_noop_right,
        vstd::arithmetic::div_mod::lemma_mul_mod_noop_general,
    };

    vstd::arithmetic::div_mod::lemma_mul_mod_noop_left(a + b, k, p);
    vstd::arithmetic::div_mod::lemma_add_mod_noop(a * k, b * k, p);
    assert((a + b) * k == a * k + b * k) by (nonlinear_arith);
    vstd::arithmetic::div_mod::lemma_mul_mod_noop_left(a - b, k, p);
    vstd::arithmetic::div_mod::lemma_sub_mod_noop(a * k, b * k, p);
    assert((a - b) * k == a * k - b * k) by (nonlinear_arith);
    vstd::arithmetic::div_mod::lemma_mul_mod_noop_left((a * b) * k, k, p);
    vstd::arithmetic::div_mod::lemma_mul_mod_noop(a * k, b * k, p);
    assert(((a * b) * k) * k == (a * k) * (b * k)) by (nonlinear_arith);
}

/// Entering Montgomery form and leaving it again changes nothing.
pub proof fn montgomery_round_trip(v: int, p: int, k: int)
    requires
        0 <= v < p,
        (radix() * k) % p == 1,
    ensures
        (((v * radix()) % p) * k) % p == v,
{
    let r = radix() as int;
    vstd::arithmetic::div_mod::lemma_mul_mod_noop_left(v * r, k, p);
    assert((v * r) * k == v * (r * k)) by (nonlinear_arith);
    vstd::arithmetic::div_mod::lemma_mul_mod_noop_right(v, r * k, p);
    assert(v * 1 == v);
    vstd::arithmetic::div_mod::lemma_small_mod(v as nat, p as nat);
}

/// Leaving Montgomery form and entering it again changes nothing.
pub proof fn montgomery_round_trip_back(m: int, p: int, k: int)
    requires
        0 <= m < p,
        (radix() * k) % p == 1,
    ensures
        (((m * k) % p) * radix()) % p == m,
{
    let r = radix() as int;
    vstd::arithmetic::div_mod::lemma_mul_mod_noop_left(m * k, r, p);
    assert((m * k) * r == m * (r * k)) by (nonlinear_arith);
    vstd::arithmetic::div_mod::lemma_mul_mod_noop_right(m, r * k, p);
    assert(m * 1 == m);
    vstd::arithmetic::div_mod::lemma_small_mod(m as nat, p as nat);
}

/// `ark_bn254::Fr` addition (`Add for ark_ff::Fp`) on Montgomery limbs.
///
/// The sum of two reduced elements is their sum modulo the order of the field, reduced.
#[verifier::external_body]
fn fr_add(a: [u64; 4], b: [u64; 4]) -> (r: [u64; 4])
    requires
        num(a) < fr_modulus(),
        num(b) < fr_modulus(),
    ensures
        num(r) == (num(a) + num(b)) % fr_modulus(),
{
    let x = ark_bn254::Fr::new_unchecked(ark_ff::BigInt::new(a));
    let y = ark_bn254::Fr::new_unchecked(ark_ff::BigInt::new(b));
    (x + y).0.0
}

/// `ark_bn254::Fr` subtraction (`Sub for ark_ff::Fp`) on Montgomery limbs.
///
/// The difference of two reduced elements is their difference modulo the order of the field,
/// reduced.
#[verifier::external_body]
fn fr_sub(a: [u64; 4], b: [u64; 4]) -> (r: [u64; 4])
    requires
        num(a) < fr_modulus(),
        num(b) < fr_modulus(),
    ensures
        num(r) == (num(a) - num(b)) % (fr_modulus() as int),
{
    let x = ark_bn254::Fr::new_unchecked(ark_ff::BigInt::new(a));
    let y = ark_bn254::Fr::new_unchecked(ark_ff::BigInt::new(b));
    (x - y).0.0
}

/// `ark_bn254::Fr` multiplication (`Mul for ark_ff::Fp`) on Montgomery limbs.
///
/// The Montgomery product of two reduced elements is their product divided by the radix, modulo
/// the order of the field, reduced.
#[verifier::external_body]
fn fr_mul(a: [u64; 4], b: [u64; 4]) -> (r: [u64; 4])
    requires
        num(a) < fr_modulus(),
        num(b) < fr_modulus(),
    ensures
        num(r) == ((num(a) * num(b)) * fr_radix_inverse()) % fr_modulus(),
{
    let x = ark_bn254::Fr::new_unchecked(ark_ff::BigInt::new(a));
    let y = ark_bn254::Fr::new_unchecked(ark_ff::BigInt::new(b));
    (x * y).0.0
}

/// `Display for ark_ff::Fp`, through `to_string`, on Montgomery limbs.
///
/// A reduced element is printed as the decimal digits of the number it stands for.
#[verifier::external_body]
fn fr_to_string(a: [u64; 4]) -> (r: String)
    requires
        num(a) < fr_modulus(),
    ensures
        r@ == decimal((num(a) * fr_radix_inverse()) % fr_modulus()),
{
    ark_bn254::Fr::new_unchecked(ark_ff::BigInt::new(a)).to_string()
}

/// `ark_ff::BigInt::<4>::to_bytes_le`.
///
/// The bytes of the number, lowest first, eight for each limb.
#[verifier::external_body]
pub(crate) fn bigint_to_bytes_le(a: [u64; 4]) -> (r: Vec<u8>)
    ensures
        r@ == crate::limbs::le_bytes(num(a), 32),
{
    ark_ff::BigInteger::to_bytes_le(&ark_ff::BigInt::new(a))
}

/// The constant `MontConfig::R` of `ark_bn254::FqConfig`: the radix, reduced.
#[verifier::external_body]
fn fq_r() -> (r: [u64; 4])
    ensures
        num(r) == radix() % fq_modulus(),
{
    <ark_bn254::FqConfig as ark_ff::MontConfig<4>>::R.0
}

/// The constant `MontConfig::R2` of `ark_bn254::FqConfig`: the square of the radix, reduced.
#[verifier::external_body]
fn fq_r2() -> (r: [u64; 4])
    ensures
        num(r) == (radix() * radix()) % fq_modulus(),
{
    <ark_bn254::FqConfig as ark_ff::MontConfig<4>>::R2.0
}

/// The constant `MontConfig::MODULUS` of `ark_bn254::FqConfig`: the order of the base field.
#[verifier::external_body]
fn fq_mod() -> (r: [u64; 4])
    ensures
        num(r) == fq_modulus(),
{
    <ark_bn254::FqConfig as ark_ff::MontConfig<4>>::MODULUS.0
}

/// The constant `MontConfig::R` of `ark_bn254::FrConfig`: the radix, reduced.
#[verifier::external_body]
fn fr_r() -> (r: [u64; 4])
    ensures
        num(r) == radix() % fr_modulus(),
{
    <ark_bn254::FrConfig as ark_ff::MontConfig<4>>::R.0
}

/// The constant `MontConfig::R2` of `ark_bn254::FrConfig`: the square of the radix, reduced.
#[verifier::external_body]
fn fr_r2() -> (r: [u64; 4])
    ensures
        num(r) == (radix() * radix()) % fr_modulus(),
{
    <ark_bn254::FrConfig as ark_ff::MontConfig<4>>::R2.0
}

/// The constant `MontConfig::MODULUS` of `ark_bn254::FrConfig`: the order of the scalar field.
#[verifier::external_body]
fn fr_mod() -> (r: [u64; 4])
    ensures
        num(r) == fr_modulus(),
{
    <ark_bn254::FrConfig as ark_ff::MontConfig<4>>::MODULUS.0
}

/// Whether one number of four limbs is less than another.
fn less_than(a: &[u64; 4], b: &[u64; 4]) -> (r: bool)
    ensures
        r == (num(*a) < num(*b)),
{
    proof {
        crate::limbs::limbs_value_4(a@);
        crate::limbs::limbs_value_4(b@);
    }
    if a[3] != b[3] {
        a[3] < b[3]
    } else if a[2] != b[2] {
        a[2] < b[2]
    } else if a[1] != b[1] {
        a[1] < b[1]
    } else {
        a[0] < b[0]
    }
}

/// Convert a big integer to 32 bit words in little-endian order.
pub fn bigint_to_u32_limbs(b: [u64; 4]) -> (r: Vec<u32>)
    ensures
        r@.len() == 8,
        crate::limbs::words_value(r@) == num(b),
{
    let bytes = bigint_to_bytes_le(b);
    proof {
        crate::limbs::limbs_value_4(b@);
        crate::limbs::pow256_small();
        crate::limbs::value_of_le_bytes(num(b), 32);
    }
    bytes_to_u32_limbs(bytes)
}

/// A prime field whose elements the host can compute with.
pub trait PrimeField: Sized + Copy {
    /// The order of the field.
    spec fn order() -> nat;

    /// The number that an element stands for.
    spec fn value(&self) -> nat;

    /// The zero of the field.
    fn zero() -> (r: Self)
        ensures
            r.value() == 0,
    ;

    /// The sum.
    fn plus(&self, other: &Self) -> (r: Self)
        ensures
            r.value() == (self.value() + other.value()) % Self::order(),
    ;

    /// The difference.
    fn minus(&self, other: &Self) -> (r: Self)
        ensures
            r.value() == (self.value() - other.value()) % (Self::order() as int),
    ;

    /// The product.
    fn times(&self, other: &Self) -> (r: Self)
        ensures
            r.value() == (self.value() * other.value()) % Self::order(),
    ;

    /// The decimal digits of the number that the element stands for.
    fn to_decimal(&self) -> (r: String)
        ensures
            r@ == decimal(self.value()),
    ;

    /// The order is more than one, and every element stands for a number below it.
    proof fn in_range(&self)
        ensures
            Self::order() > 1,
            self.value() < Self::order(),
    ;
}

/// The constants of a field that its device code is generated from, as 32 bit words in
/// little-endian order.
pub trait GpuField {
    /// The modulus that coordinates are reduced by.
    spec fn prime() -> nat;

    /// How many coordinates an element has.
    spec fn degree() -> nat;

    /// The one of the field in Montgomery form.
    fn one() -> (r: Vec<u32>)
        ensures
            r@.len() == 8 * Self::degree(),
            crate::limbs::words_value(r@) == radix() % Self::prime(),
    ;

    /// The square of the Montgomery radix.
    fn r2() -> (r: Vec<u32>)
        ensures
            r@.len() == 8 * Self::degree(),
            crate::limbs::words_value(r@) == (radix() * radix()) % Self::prime(),
    ;

    /// The modulus.
    fn modulus() -> (r: Vec<u32>)
        ensures
            r@.len() == 8,
            crate::limbs::words_value(r@) == Self::prime(),
    ;

    /// The name of the field that this one is an extension of, if it is one. `base` is the name of
    /// the base field.
    fn sub_field_name(base: &str) -> (r: Option<String>)
        ensures
            Self::degree() == 1 ==> r is None,
            Self::degree() > 1 ==> (r matches Some(name) && name@ == base@),
    ;
}

/// An element of the scalar field.
#[derive(Copy, Clone, Debug, PartialEq, Eq)]
pub struct Fr {
    limbs: [u64; 4],
}

/// An element of the base field.
#[derive(Copy, Clone, Debug, PartialEq, Eq)]
pub struct Fq {
    limbs: [u64; 4],
}

/// An element `c0 + c1 * u` of the quadratic extension of the base field, where `u * u == -1`.
#[derive(Copy, Clone, Debug, PartialEq, Eq)]
pub struct Fq2 {
    /// The coefficient of one.
    pub c0: Fq,
    /// The coefficient of `u`.
    pub c1: Fq,
}

impl Fr {
    #[verifier::type_invariant]
    spec fn reduced(self) -> bool {
        num(self.limbs) < fr_modulus()
    }

    /// The limbs, as a number.
    pub closed spec fn mont(&self) -> nat {
        num(self.limbs)
    }

    /// The element with the given Montgomery limbs, if they are reduced.
    pub fn from_mont_limbs(limbs: [u64; 4]) -> (r: Option<Self>)
        ensures
            r is Some <==> num(limbs) < fr_modulus(),
            r matches Some(f) ==> f.mont() == num(limbs),
    {
        if less_than(&limbs, &fr_mod()) {
            Some(Fr { limbs })
        } else {
            None
        }
    }

    /// The limbs of the Montgomery form.
    pub fn mont_limbs(&self) -> (r: [u64; 4])
        ensures
            num(r) == self.mont(),
            num(r) < fr_modulus(),
    {
        proof {
            use_type_invariant(self);
        }
        self.limbs
    }
}

impl Fq {
    #[verifier::type_invariant]
    spec fn reduced(self) -> bool {
        num(self.limbs) < fq_modulus()
    }

    /// The limbs, as a number.
    pub closed spec fn mont(&self) -> nat {
        num(self.limbs)
    }

    /// The number that an element stands for.
    pub open spec fn value(&self) -> nat {
        (self.mont() * fq_radix_inverse()) % fq_modulus()
    }

    /// The element with the given Montgomery limbs, if they are reduced.
    pub fn from_mont_limbs(limbs: [u64; 4]) -> (r: Option<Self>)
        ensures
            r is Some <==> num(limbs) < fq_modulus(),
            r matches Some(f) ==> f.mont() == num(limbs),
    {
        if less_than(&limbs, &fq_mod()) {
            Some(Fq { limbs })
        } else {
            None
        }
    }

    /// The element with the given reduced Montgomery limbs.
    pub(crate) fn from_reduced(limbs: [u64; 4]) -> (r: Self)
        requires
            num(limbs) < fq_modulus(),
        ensures
            r.mont() == num(limbs),
    {
        Fq { limbs }
    }

    /// The limbs of the Montgomery form.
    pub fn mont_limbs(&self) -> (r: [u64; 4])
        ensures
            num(r) == self.mont(),
            num(r) < fq_modulus(),
            num(r) == (self.value() * radix()) % fq_modulus(),
    {
        proof {
            use_type_invariant(self);
            radix_inverses();
            montgomery_round_trip_back(
                self.mont() as int,
                fq_modulus() as int,
                fq_radix_inverse() as int,
            );
        }
        self.limbs
    }
}

impl PrimeField for Fr {
    open spec fn order() -> nat {
        fr_modulus()
    }

    open spec fn value(&self) -> nat {
        (self.mont() * fr_radix_inverse()) % fr_modulus()
    }

    fn zero() -> (r: Self) {
        let limbs: [u64; 4] = [0, 0, 0, 0];
        proof {
            crate::limbs::limbs_value_4(limbs@);
        }
        Fr { limbs }
    }

    fn plus(&self, other: &Self) -> (r: Self) {
        proof {
            use_type_invariant(self);
            use_type_invariant(other);
            leaving_montgomery(
                self.mont() as int,
                other.mont() as int,
                fr_radix_inverse() as int,
                fr_modulus() as int,
            );
        }
        let limbs = fr_add(self.limbs, other.limbs);
        Fr { limbs }
    }

    fn minus(&self, other: &Self) -> (r: Self) {
        proof {
            use_type_invariant(self);
            use_type_invariant(other);
            leaving_montgomery(
                self.mont() as int,
                other.mont() as int,
                fr_radix_inverse() as int,
                fr_modulus() as int,
            );
        }
        let limbs = fr_sub(self.limbs, other.limbs);
        Fr { limbs }
    }

    fn times(&self, other: &Self) -> (r: Self) {
        proof {
            use_type_invariant(self);
            use_type_invariant(other);
            leaving_montgomery(
                self.mont() as int,
                other.mont() as int,
                fr_radix_inverse() as int,
                fr_modulus() as int,
            );
        }
        let limbs = fr_mul(self.limbs, other.limbs);
        Fr { limbs }
    }

    fn to_decimal(&self) -> (r: String) {
        proof {
            use_type_invariant(self);
        }
        fr_to_string(self.limbs)
    }

    proof fn in_range(&self) {
    }
}

impl GpuField for Fr {
    open spec fn prime() -> nat {
        fr_modulus()
    }

    open spec fn degree() -> nat {
        1
    }

    fn one() -> (r: Vec<u32>) {
        bigint_to_u32_limbs(fr_r())
    }

    fn r2() -> (r: Vec<u32>) {
        bigint_to_u32_limbs(fr_r2())
    }

    fn modulus() -> (r: Vec<u32>) {
        bigint_to_u32_limbs(fr_mod())
    }

    fn sub_field_name(_base: &str) -> (r: Option<String>) {
        None
    }
}

impl GpuField for Fq {
    open spec fn prime() -> nat {
        fq_modulus()
    }

    open spec fn degree() -> nat {
        1
    }

    fn one() -> (r: Vec<u32>) {
        bigint_to_u32_limbs(fq_r())
    }

    fn r2() -> (r: Vec<u32>) {
        bigint_to_u32_limbs(fq_r2())
    }

    fn modulus() -> (r: Vec<u32>) {
        bigint_to_u32_limbs(fq_mod())
    }

    fn sub_field_name(_base: &str) -> (r: Option<String>) {
        None
    }
}

/// Words with `n` zero words behind them.
fn padded(words: Vec<u32>, n: usize) -> (r: Vec<u32>)
    requires
        words@.len() + n <= usize::MAX,
    ensures
        r@.len() == words@.len() + n,
        r@ == words@ + Seq::new(n as nat, |i: int| 0u32),
        crate::limbs::words_value(r@) == crate::limbs::words_value(words@),
{
    let mut out: Vec<u32> = words;
    let mut k: usize = 0;
    while k < n
        invariant
            k <= n,
            out@ == words@ + Seq::new(k as nat, |i: int| 0u32),
            crate::limbs::words_value(out@) == crate::limbs::words_value(words@),
        decreases n - k,
    {
        proof {
            crate::limbs::words_value_push(out@, 0);
            assert(crate::limbs::pow256(4 * out@.len()) * 0 == 0) by (nonlinear_arith);
            assert(out@.push(0) =~= words@ + Seq::new((k + 1) as nat, |i: int| 0u32));
        }
        out.push(0);
        k = k + 1;
    }
    out
}

impl GpuField for Fq2 {
    open spec fn prime() -> nat {
        fq_modulus()
    }

    open spec fn degree() -> nat {
        2
    }

    fn one() -> (r: Vec<u32>) {
        let n: usize = bigint_to_u32_limbs(fq_mod()).len();
        padded(bigint_to_u32_limbs(fq_r()), n)
    }

    fn r2() -> (r: Vec<u32>) {
        let n: usize = bigint_to_u32_limbs(fq_mod()).len();
        padded(bigint_to_u32_limbs(fq_r2()), n)
    }

    fn modulus() -> (r: Vec<u32>) {
        bigint_to_u32_limbs(fq_mod())
    }

    fn sub_field_name(base: &str) -> (r: Option<String>) {
        Some(base.to_owned())
    }
}

} // verus!
