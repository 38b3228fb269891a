use ark_bn254::Fr as ArkFr;
use ark_ff::{AdditiveGroup, Field};
use ark_std::{UniformRand, Zero};

use ec_gpu_gen::field::Fr;
use ec_gpu_gen::opencl::{Device, PciId, Program, Vendor};
use ec_gpu_gen::poly_ops::{FixVars, PolyOpsKernel};
use ec_gpu_gen::reference::{
    eval_univariate_cpu, fix_var_cpu, linear_combine_cpu, witness_poly_cpu,
};
use ec_gpu_gen::session::{Arg, Command, Elem, KernelId};

fn fr(x: ArkFr) -> Fr {
    Fr::from_mont_limbs(x.0 .0).unwrap()
}

fn ark(x: &Fr) -> ArkFr {
    ArkFr::new_unchecked(ark_ff::BigInt::new(x.mont_limbs()))
}

fn frs(xs: &[ArkFr]) -> Vec<Fr> {
    xs.iter().map(|x| fr(*x)).collect()
}

fn arks(xs: &[Fr]) -> Vec<ArkFr> {
    xs.iter().map(ark).collect()
}

#[test]
fn test_fix_var_reference() {
    let mut rng = ark_std::test_rng();

    // Test with a small polynomial
    let poly: Vec<ArkFr> = (0..8).map(|_| ArkFr::rand(&mut rng)).collect();
    let r = ArkFr::rand(&mut rng);

    let result = arks(&fix_var_cpu(&frs(&poly), &fr(r)));
    assert_eq!(result.len(), 4);

    // Verify the formula manually for first element
    let expected_0 = r * (poly[1] - poly[0]) + poly[0];
    assert_eq!(result[0], expected_0);
}

#[test]
fn test_linear_combine_reference() {
    let mut rng = ark_std::test_rng();

    let p1: Vec<ArkFr> = (0..4).map(|_| ArkFr::rand(&mut rng)).collect();
    let p2: Vec<ArkFr> = (0..4).map(|_| ArkFr::rand(&mut rng)).collect();
    let c1 = ArkFr::rand(&mut rng);
    let c2 = ArkFr::rand(&mut rng);

    let (l1, l2) = (frs(&p1), frs(&p2));
    let polys: Vec<&[Fr]> = vec![&l1, &l2];
    let coeffs = vec![fr(c1), fr(c2)];

    let result = arks(&linear_combine_cpu(&polys, &coeffs));
    assert_eq!(result.len(), 4);

    // Verify manually
    for i in 0..4 {
        assert_eq!(result[i], p1[i] * c1 + p2[i] * c2);
    }
}

#[test]
fn test_witness_poly_reference() {
    let mut rng = ark_std::test_rng();

    let f: Vec<ArkFr> = (0..4).map(|_| ArkFr::rand(&mut rng)).collect();
    let u = ArkFr::rand(&mut rng);

    let h = witness_poly_cpu(&frs(&f), &fr(u));
    assert_eq!(h.len(), 3);

    // f(x) = h(x) * (x - u) + f(u), for another x
    let x = ArkFr::rand(&mut rng);
    let at = |p: &[ArkFr], x: ArkFr| p.iter().rev().fold(ArkFr::ZERO, |acc, c| acc * x + c);
    assert_eq!(at(&f, x), at(&arks(&h), x) * (x - u) + at(&f, u));
}

#[test]
fn test_eval_univariate_batch_reference() {
    let mut rng = ark_std::test_rng();

    let p1: Vec<ArkFr> = (0..8).map(|_| ArkFr::rand(&mut rng)).collect();
    let p2: Vec<ArkFr> = (0..8).map(|_| ArkFr::rand(&mut rng)).collect();
    let points = vec![ArkFr::rand(&mut rng), ArkFr::rand(&mut rng), ArkFr::rand(&mut rng)];

    let polys = vec![&p1[..], &p2[..]];

    // Compute expected results
    for (point_idx, point) in points.iter().enumerate() {
        for (poly_idx, poly) in polys.iter().enumerate() {
            let expected = ark(&eval_univariate_cpu(&frs(poly), &fr(*point)));
            // Just verify the CPU reference computes something
            assert!(!expected.is_zero() || poly.iter().all(|c| c.is_zero()));
            println!(
                "eval_univariate_cpu(poly[{}], point[{}]) = {:?}",
                poly_idx, point_idx, expected
            );
            let mut power = ArkFr::from(1u64);
            let mut sum = ArkFr::ZERO;
            for c in poly.iter() {
                sum += *c * power;
                power *= point;
            }
            assert_eq!(expected, sum);
        }
    }
}

#[test]
fn test_witness_poly_batch_reference() {
    let mut rng = ark_std::test_rng();

    let f: Vec<ArkFr> = (0..8).map(|_| ArkFr::rand(&mut rng)).collect();
    let points = vec![ArkFr::rand(&mut rng), ArkFr::rand(&mut rng), ArkFr::rand(&mut rng)];

    // Compute witnesses for each point using the CPU reference
    for (i, point) in points.iter().enumerate() {
        let h = witness_poly_cpu(&frs(&f), &fr(*point));
        assert_eq!(h.len(), f.len() - 1);
        println!("witness_poly_cpu(f, point[{}]).len() = {}", i, h.len());
    }
}

#[test]
fn reference_on_small_numbers() {
    let n = |v: i64| {
        let x = ArkFr::from(v.unsigned_abs());
        fr(if v < 0 { -x } else { x })
    };
    // 3 + 5 x + 7 x^2 + 2 x^3 at 10
    let f = [n(3), n(5), n(7), n(2)];
    assert_eq!(eval_univariate_cpu(&f, &n(10)), n(2753));
    // 2 x^2 + 27 x + 275, remainder 2753
    assert_eq!(witness_poly_cpu(&f, &n(10)), vec![n(275), n(27), n(2)]);
    // 3 + 4 * (5 - 3), 7 + 4 * (2 - 7)
    assert_eq!(fix_var_cpu(&f, &n(4)), vec![n(11), n(-13)]);
    assert_eq!(fix_var_cpu(&f, &n(0)), vec![n(3), n(7)]);
    assert_eq!(fix_var_cpu(&f, &n(1)), vec![n(5), n(2)]);
    let polys: Vec<&[Fr]> = vec![&f[..2], &f[2..]];
    assert_eq!(linear_combine_cpu(&polys, &[n(10), n(-1)]), vec![n(23), n(48)]);
    assert!(witness_poly_cpu(&[n(9)], &n(4)).is_empty());
    assert_eq!(eval_univariate_cpu(&[n(9)], &n(4)), n(9));
    // An odd element at the end is left out.
    assert_eq!(fix_var_cpu(&[n(1), n(2), n(3)], &n(5)), vec![n(6)]);
}

fn device() -> Device {
    Device::new(Vendor(0x10de), "d".to_string(), 1 << 30, 1, None, PciId(1), None)
}

fn kernel() -> PolyOpsKernel<Fr> {
    let programs = vec![
        Program::new("a".to_string(), Vec::new()),
        Program::new("b".to_string(), Vec::new()),
    ];
    PolyOpsKernel::create(programs, &[device()]).unwrap()
}

#[test]
fn poly_ops_kernel_uses_the_first_program() {
    assert_eq!(kernel().kernel().program().device_name(), "a");
}

#[test]
fn fix_var_session() {
    let poly: Vec<Fr> = (0..600u64).map(|i| fr(ArkFr::from(i))).collect();
    let r = fr(ArkFr::from(3u64));
    let k = kernel();
    let session = k.fix_var(&poly[..512], &r);
    let commands = session.commands();
    assert_eq!(commands.len(), 5);
    assert!(matches!(commands[0], Command::Upload { slot: 0, .. }));
    assert!(matches!(commands[1], Command::Upload { slot: 1, .. }));
    assert!(matches!(commands[2], Command::Alloc { slot: 2, elem: Elem::Scalar, len: 256 }));
    match &commands[3] {
        Command::Launch { kernel, global, local, args } => {
            assert_eq!((*kernel, *global, *local), (KernelId::FixVar, 1, 256));
            assert_eq!(
                args,
                &vec![Arg::Buffer(0), Arg::Buffer(2), Arg::Buffer(1), Arg::Word(256)]
            );
        }
        other => panic!("not a launch: {:?}", other),
    }
    assert!(matches!(commands[4], Command::Read { slot: 2, elem: Elem::Scalar, len: 256 }));
}

#[test]
fn delegated_sessions_are_those_of_the_first_kernel() {
    let k = kernel();
    let poly: Vec<Fr> = (0..8u64).map(|i| fr(ArkFr::from(i))).collect();
    let r = fr(ArkFr::from(3u64).inverse().unwrap());
    let polys: Vec<&[Fr]> = vec![&poly[..4], &poly[4..]];
    let two = [r, r];
    let lens = [
        (k.fix_var(&poly, &r).len(), k.kernel().fix_var(&poly, &r).len()),
        (k.linear_combine(&polys, &two).len(), k.kernel().linear_combine(&polys, &two).len()),
        (k.witness_poly(&poly, &r).len(), k.kernel().witness_poly(&poly, &r).len()),
        (
            k.eval_univariate_batch(&polys, &two).len(),
            k.kernel().eval_univariate_batch(&polys, &two).len(),
        ),
        (
            k.witness_poly_batch(&poly, &two).len(),
            k.kernel().witness_poly_batch(&poly, &two).len(),
        ),
        (k.to_scalar_bytes(&poly).len(), k.kernel().to_scalar_bytes(&poly).len()),
        (k.fix_var_to_scalar(&poly, &r).len(), k.kernel().fix_var_to_scalar(&poly, &r).len()),
    ];
    for (a, b) in lens {
        assert_eq!(a, b);
        assert!(a > 0);
    }
    assert!(matches!(k.fix_vars(&poly, &two), FixVars::Run(_)));
    assert!(matches!(k.fix_vars(&poly, &[]), FixVars::Value(_)));
}
