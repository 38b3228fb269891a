//! Field and group elements against those of the curve library.

use ark_bn254::{Fq as ArkFq, Fq2 as ArkFq2, Fr as ArkFr, FqConfig, FrConfig};
use ark_ec::{AffineRepr, CurveGroup};
use ark_ff::{AdditiveGroup, BigInteger, MontConfig, PrimeField as ArkPrimeField};
use ark_std::UniformRand;

use ec_gpu_gen::curve::{
    G1Affine, G1AffineM, G1Projective, G2Affine, G2AffineM, G2Projective, GpuAffine,
};
use ec_gpu_gen::field::{bigint_to_u32_limbs, Fq, Fq2, Fr, GpuField, PrimeField};
use ec_gpu_gen::group::Group;
use ec_gpu_gen::limbs::bytes_to_u32_limbs;
use ec_gpu_gen::single_multiexp::convert_exponents;

fn fr(x: ArkFr) -> Fr {
    Fr::from_mont_limbs(x.0 .0).unwrap()
}

fn fq(x: ArkFq) -> Fq {
    Fq::from_mont_limbs(x.0 .0).unwrap()
}

fn fq2(x: ArkFq2) -> Fq2 {
    Fq2 { c0: fq(x.c0), c1: fq(x.c1) }
}

fn ark_fq(x: &Fq) -> ArkFq {
    ArkFq::new_unchecked(ark_ff::BigInt::new(x.mont_limbs()))
}

fn ark_fq2(x: &Fq2) -> ArkFq2 {
    ArkFq2::new(ark_fq(&x.c0), ark_fq(&x.c1))
}

fn g1(p: &ark_bn254::G1Projective) -> G1Projective {
    G1Projective { x: fq(p.x), y: fq(p.y), z: fq(p.z) }
}

fn ark_g1(p: &G1Projective) -> ark_bn254::G1Projective {
    ark_bn254::G1Projective::new_unchecked(ark_fq(&p.x), ark_fq(&p.y), ark_fq(&p.z))
}

fn g2(p: &ark_bn254::G2Projective) -> G2Projective {
    G2Projective { x: fq2(p.x), y: fq2(p.y), z: fq2(p.z) }
}

fn ark_g2(p: &G2Projective) -> ark_bn254::G2Projective {
    ark_bn254::G2Projective::new_unchecked(ark_fq2(&p.x), ark_fq2(&p.y), ark_fq2(&p.z))
}

#[test]
fn scalar_arithmetic() {
    let mut rng = ark_std::test_rng();
    for _ in 0..20 {
        let (a, b) = (ArkFr::rand(&mut rng), ArkFr::rand(&mut rng));
        assert_eq!(fr(a).plus(&fr(b)), fr(a + b));
        assert_eq!(fr(a).minus(&fr(b)), fr(a - b));
        assert_eq!(fr(a).times(&fr(b)), fr(a * b));
        assert_eq!(fr(a).to_decimal(), a.to_string());
    }
    let n = |v: u64| fr(ArkFr::from(v));
    assert_eq!(n(20).plus(&n(22)), n(42));
    assert_eq!(n(6).times(&n(7)), n(42));
    assert_eq!(n(50).minus(&n(8)), n(42));
    assert_eq!(n(42).to_decimal(), "42");
    assert_eq!(Fr::zero(), n(0));
    assert_eq!(Fr::zero().to_decimal(), "0");
    assert_eq!(
        n(0).minus(&n(1)).to_decimal(),
        "21888242871839275222246405745257275088548364400416034343698204186575808495616"
    );
}

#[test]
fn limbs_must_be_reduced() {
    let r = FrConfig::MODULUS.0;
    let q = FqConfig::MODULUS.0;
    assert!(Fr::from_mont_limbs(r).is_none());
    assert!(Fq::from_mont_limbs(q).is_none());
    assert!(Fr::from_mont_limbs([u64::MAX; 4]).is_none());
    let mut below = r;
    below[0] -= 1;
    assert_eq!(Fr::from_mont_limbs(below).unwrap().mont_limbs(), below);
    // The order of the scalar field is the smaller one.
    assert_eq!(Fq::from_mont_limbs(r).unwrap().mont_limbs(), r);
    assert!(Fr::from_mont_limbs(q).is_none());
}

fn words(limbs: [u64; 4]) -> Vec<u32> {
    limbs.iter().flat_map(|l| [*l as u32, (*l >> 32) as u32]).collect()
}

#[test]
fn field_constants() {
    assert_eq!(<Fr as GpuField>::one(), words(FrConfig::R.0));
    assert_eq!(<Fr as GpuField>::r2(), words(FrConfig::R2.0));
    assert_eq!(<Fr as GpuField>::modulus(), words(FrConfig::MODULUS.0));
    assert_eq!(<Fq as GpuField>::one(), words(FqConfig::R.0));
    assert_eq!(<Fq as GpuField>::r2(), words(FqConfig::R2.0));
    assert_eq!(<Fq as GpuField>::modulus(), words(FqConfig::MODULUS.0));
    let padded = |limbs: [u64; 4]| {
        let mut w = words(limbs);
        w.extend([0u32; 8]);
        w
    };
    assert_eq!(<Fq2 as GpuField>::one(), padded(FqConfig::R.0));
    assert_eq!(<Fq2 as GpuField>::r2(), padded(FqConfig::R2.0));
    assert_eq!(<Fq2 as GpuField>::modulus(), words(FqConfig::MODULUS.0));
    assert_eq!(<Fr as GpuField>::sub_field_name("fq"), None);
    assert_eq!(<Fq as GpuField>::sub_field_name("fq"), None);
    assert_eq!(<Fq2 as GpuField>::sub_field_name("fq"), Some("fq".to_string()));
    assert_eq!(
        <Fr as GpuField>::modulus(),
        vec![
            0xf0000001, 0x43e1f593, 0x79b97091, 0x2833e848, 0x8181585d, 0xb85045b6, 0xe131a029,
            0x30644e72
        ]
    );
}

#[test]
fn words_of_bytes_and_big_integers() {
    assert_eq!(bytes_to_u32_limbs(vec![]), Vec::<u32>::new());
    assert_eq!(bytes_to_u32_limbs(vec![1, 2, 3, 4]), vec![0x04030201]);
    assert_eq!(bytes_to_u32_limbs(vec![0xff]), vec![0xff]);
    assert_eq!(bytes_to_u32_limbs(vec![1, 0, 0, 0, 2, 3]), vec![1, 0x0302]);
    assert_eq!(
        bigint_to_u32_limbs([0x1122334455667788, 1, 0, u64::MAX]),
        vec![0x55667788, 0x11223344, 1, 0, 0, 0, u32::MAX, u32::MAX]
    );
}

#[test]
fn exponents_become_little_endian_bytes() {
    let mut rng = ark_std::test_rng();
    let scalars: Vec<ArkFr> = (0..5).map(|_| ArkFr::rand(&mut rng)).collect();
    let limbs: Vec<[u64; 4]> = scalars.iter().map(|s| s.into_bigint().0).collect();
    let bytes = convert_exponents(&limbs);
    for (b, s) in bytes.iter().zip(&scalars) {
        assert_eq!(b.to_vec(), s.into_bigint().to_bytes_le());
    }
}

#[test]
fn first_group_arithmetic() {
    let mut rng = ark_std::test_rng();
    let p = ark_bn254::G1Projective::rand(&mut rng);
    let q = ark_bn254::G1Projective::rand(&mut rng);
    let zero = ark_bn254::G1Projective::ZERO;
    for (a, b) in [(p, q), (p, p), (p, -p), (p, zero), (zero, q), (zero, zero)] {
        assert_eq!(ark_g1(&g1(&a).added(&g1(&b))), a + b);
    }
    assert_eq!(ark_g1(&g1(&p).double()), p.double());
    assert_eq!(ark_g1(&g1(&zero).double()), zero);
    assert_eq!(ark_g1(&G1Projective::zero()), zero);
    // The same point in other coordinates
    let r = p + q - q;
    let a = G1Affine::from_group(&g1(&r));
    let expected = p.into_affine();
    assert_eq!((ark_fq(&a.x), ark_fq(&a.y), a.infinity), (expected.x, expected.y, false));
    assert_eq!(ark_g1(&a.to_group()), p);
    let o = G1Affine::from_group(&G1Projective::zero());
    assert!(o.infinity);
    assert_eq!(ark_g1(&o.to_group()), zero);
}

#[test]
fn second_group_arithmetic() {
    let mut rng = ark_std::test_rng();
    let p = ark_bn254::G2Projective::rand(&mut rng);
    let q = ark_bn254::G2Projective::rand(&mut rng);
    let zero = ark_bn254::G2Projective::ZERO;
    for (a, b) in [(p, q), (p, p), (p, -p), (p, zero), (zero, q), (zero, zero)] {
        assert_eq!(ark_g2(&g2(&a).added(&g2(&b))), a + b);
    }
    assert_eq!(ark_g2(&g2(&p).double()), p.double());
    assert_eq!(ark_g2(&g2(&zero).double()), zero);
    assert_eq!(ark_g2(&G2Projective::zero()), zero);
    let r = p + q - q;
    let a = G2Affine::from_group(&g2(&r));
    let expected = p.into_affine();
    assert_eq!((ark_fq2(&a.x), ark_fq2(&a.y), a.infinity), (expected.x, expected.y, false));
    assert_eq!(ark_g2(&a.to_group()), p);
    let o = G2Affine::from_group(&G2Projective::zero());
    assert!(o.infinity);
    assert_eq!(ark_g2(&o.to_group()), zero);
}

/// The Montgomery form of a coordinate, as bytes.
fn montgomery(x: &ArkFq) -> Vec<u8> {
    x.0 .0.iter().flat_map(|l| l.to_le_bytes()).collect()
}

#[test]
fn device_representations() {
    let mut rng = ark_std::test_rng();
    let p = ark_bn254::G1Projective::rand(&mut rng).into_affine();
    let a = G1Affine { x: fq(p.x), y: fq(p.y), infinity: false };
    let r = a.to_gpu();
    assert_eq!(r.x.to_vec(), montgomery(&p.x));
    assert_eq!(r.y.to_vec(), montgomery(&p.y));
    assert_eq!(r, G1AffineM::from(a));
    assert_eq!(r, G1AffineM::from(&a));
    let o = G1Affine { x: fq(p.x), y: fq(p.y), infinity: true };
    assert_eq!(o.to_gpu(), G1AffineM { x: [0; 32], y: [0; 32] });
    assert_eq!(G1Affine::default_repr(), G1AffineM::default());

    let p = ark_bn254::G2Projective::rand(&mut rng).into_affine();
    let a = G2Affine { x: fq2(p.x), y: fq2(p.y), infinity: false };
    let r = a.to_gpu();
    assert_eq!(r.x.to_vec(), [montgomery(&p.x.c0), montgomery(&p.x.c1)].concat());
    assert_eq!(r.y.to_vec(), [montgomery(&p.y.c0), montgomery(&p.y.c1)].concat());
    assert_eq!(r, G2AffineM::from(a));
    assert_eq!(r, G2AffineM::from(&a));
    let o = G2Affine { x: fq2(p.x), y: fq2(p.y), infinity: true };
    assert_eq!(o.to_gpu(), G2AffineM { x: [0; 64], y: [0; 64] });
    assert_eq!(G2Affine::default_repr(), G2AffineM::default());
    // The generator has the coordinates one and two.
    let g = ark_bn254::G1Affine::generator();
    let g = G1Affine { x: fq(g.x), y: fq(g.y), infinity: false }.to_gpu();
    let r: Vec<u8> = FqConfig::R.0.iter().flat_map(|l| l.to_le_bytes()).collect();
    assert_eq!(g.x.to_vec(), r);
}
