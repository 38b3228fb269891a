//! Windows, buckets, chunks, tables and memory.

use ec_gpu_gen::arith::{div_ceil, floor_log2, pow2_usize};
use ec_gpu_gen::batch_commit::max_len;
use ec_gpu_gen::curve::{G1Affine, G1AffineM, G1Projective, G2Affine};
use ec_gpu_gen::dispatch::all_listed;
use ec_gpu_gen::error::EcError;
use ec_gpu_gen::fused_msm::MsmSizes;
use ec_gpu_gen::fused_open::calc_sort_window_size;
use ec_gpu_gen::memory::{
    calc_chunk_size, calc_chunk_size_sorted, exp_size, fit_terms, fit_terms_sorted, usable_memory,
};
use ec_gpu_gen::multiexp::{compute_max_scalar_bits, window_size};
use ec_gpu_gen::multiexp_kernel::{split, DeviceProgress};
use ec_gpu_gen::opencl::{Device, PciId, Program, Vendor};
use ec_gpu_gen::scalar_mul::TableShape;
use ec_gpu_gen::witness::WitnessShape;
use ec_gpu_gen::{
    build_dispatch_tables, compute_sorted_msm_params, compute_work_units, MultiexpKernel,
    SingleMultiexpKernel, SortedMsmParams, CHUNK_SIZE,
};

fn device(memory: u64, compute_units: u32, capability: Option<(u32, u32)>) -> Device {
    Device::new(
        Vendor(0x10de),
        "device".to_string(),
        memory,
        compute_units,
        capability,
        PciId(7),
        None,
    )
}

fn program() -> Program {
    Program::new("device".to_string(), Vec::new())
}

#[test]
fn integer_helpers() {
    assert_eq!((div_ceil(0, 3), div_ceil(9, 3), div_ceil(10, 3)), (0, 3, 4));
    assert_eq!(div_ceil(usize::MAX, 2), usize::MAX / 2 + 1);
    assert_eq!((floor_log2(0), floor_log2(1), floor_log2(2), floor_log2(3)), (0, 0, 1, 1));
    assert_eq!((floor_log2(1023), floor_log2(1024), floor_log2(usize::MAX)), (9, 10, 63));
    assert_eq!((pow2_usize(0), pow2_usize(15)), (1, 32768));
}

#[test]
fn work_units_are_doubled_on_ampere() {
    assert_eq!(compute_work_units(&device(1, 10, Some((8, 6)))), 2560);
    assert_eq!(compute_work_units(&device(1, 10, Some((7, 5)))), 1280);
    assert_eq!(compute_work_units(&device(1, 10, Some((9, 0)))), 1280);
    assert_eq!(compute_work_units(&device(1, 10, None)), 1280);
}

#[test]
fn window_sizes() {
    assert_eq!(window_size(1, 1024), 2);
    assert_eq!(window_size(1024, 1024), 2);
    assert_eq!(window_size(1025, 1024), 3);
    assert_eq!(window_size(1 << 20, 1024), 12);
    assert_eq!(window_size(1 << 40, 1024), 16);
    for n in [1usize, 2, 3, 100, 5000, 123_456, 1 << 22] {
        let expected = ((div_ceil(n, 640) as f64).log2() as usize) + 2;
        assert_eq!(window_size(n, 640), expected.min(16));
    }
    assert_eq!(calc_sort_window_size(0), 3);
    assert_eq!(calc_sort_window_size(1), 3);
    assert_eq!(calc_sort_window_size(256), 3);
    assert_eq!(calc_sort_window_size(1 << 11), 3);
    assert_eq!(calc_sort_window_size(1 << 12), 4);
    assert_eq!(calc_sort_window_size(1 << 20), 12);
    assert_eq!(calc_sort_window_size(1 << 30), 16);
}

#[test]
fn scalar_mul_windows() {
    for n in [1usize, 31, 32, 62, 63, 125, 126, 249, 250, 497, 498, 992, 993, 1978, 1979, 3944,
        3945, 7863, 7864, 15677, 15678, 31257, 31258, 62317, 62318, 200_000, 10_000_000]
    {
        let expected = if n < 32 { 3 } else { ((n as f64).ln() * 100.0 / 69.0) as usize };
        let t = TableShape::new(n);
        assert_eq!(t.window, expected.min(16));
        assert_eq!(t.num_windows, 254usize.div_ceil(t.window));
        assert_eq!(t.in_window, 1 << t.window);
    }
}

#[test]
fn sorted_msm_params() {
    assert_eq!(
        compute_sorted_msm_params(1 << 20, 254),
        SortedMsmParams {
            n_bases: 1 << 20,
            num_windows: 22,
            buckets_per_window: 2048,
            window_size: 12,
            effective_bits: 254,
        }
    );
    assert_eq!(compute_sorted_msm_params(256, 254).window_size, 3);
    assert_eq!(compute_sorted_msm_params(1 << 12, 254).window_size, 4);
    let large = compute_sorted_msm_params(1 << 30, 64);
    assert_eq!((large.window_size, large.num_windows), (16, 5));
    // One more bit than the scalars have, for the carry of the signed digits.
    let even = SortedMsmParams::with_window_size(300, 254, 5);
    assert_eq!((even.num_windows, even.buckets_per_window), (51, 16));
    let full = SortedMsmParams::with_window_size(300, 255, 5);
    assert_eq!(full.num_windows, 52);
}

#[test]
fn bits_of_the_largest_scalar() {
    assert_eq!(compute_max_scalar_bits(&[]), 1);
    assert_eq!(compute_max_scalar_bits(&[[0; 32]]), 1);
    let mut a = [0u8; 32];
    a[0] = 1;
    assert_eq!(compute_max_scalar_bits(&[a]), 1);
    a[0] = 0x80;
    assert_eq!(compute_max_scalar_bits(&[[0; 32], a]), 8);
    a[7] = 0x12;
    assert_eq!(compute_max_scalar_bits(&[a, [0; 32]]), 61);
    assert_eq!(compute_max_scalar_bits(&[[0xff; 32]]), 256);
}

#[test]
fn dispatch_tables() {
    assert_eq!(CHUNK_SIZE, 256);
    let sizes = [0u32, 300, 256, 0, 513];
    let ids = [1u32, 2, 4, 99, 99];
    let (dispatch, reduce, n) = build_dispatch_tables(&sizes, &ids, 3);
    assert_eq!(n, 6);
    assert_eq!(
        dispatch,
        vec![1, 0, 256, 1, 256, 44, 2, 0, 256, 4, 0, 256, 4, 256, 256, 4, 512, 1]
    );
    assert_eq!(reduce, vec![0, 2, 2, 1, 3, 3]);
    // Every point of a listed bucket is in exactly one chunk.
    assert_eq!(dispatch.chunks(3).map(|c| c[2]).sum::<u32>(), 300 + 256 + 513);
    assert_eq!(build_dispatch_tables(&sizes, &ids, 0), (vec![], vec![], 0));
    // A bucket without points has no chunk.
    assert_eq!(build_dispatch_tables(&sizes, &[0], 1), (vec![], vec![0, 0], 0));
    assert!(all_listed(&sizes, &ids, 3));
    assert!(!all_listed(&sizes, &ids, 4));
    assert!(!all_listed(&sizes, &ids[..2], 3));
}

#[test]
fn usable_memory_is_that_of_doubles() {
    let mut mem = 1u64;
    for i in 0..2000u64 {
        mem = mem.wrapping_mul(6364136223846793005).wrapping_add(1442695040888963407 + i);
        for m in [mem, mem >> 20, mem >> 40, mem | 0xffff] {
            assert_eq!(usable_memory(m), ((m as f64) * (1f64 - 0.2f64)) as usize);
        }
    }
    for m in [0, 1, 4, 5, 1 << 30, 8 << 30, u64::MAX, u64::MAX - 1024, (1 << 53) + 1] {
        assert_eq!(usable_memory(m), ((m as f64) * (1f64 - 0.2f64)) as usize);
    }
    assert_eq!(usable_memory(10 << 30), 8 << 30);
}

#[test]
fn terms_that_fit() {
    // One work unit takes 32769 points.
    assert_eq!(fit_terms(32769 * 96 + 1000, 5, 96, 96), (10, 1));
    assert_eq!(fit_terms(32769 * 96, 5, 96, 96), (0, 1));
    assert_eq!(fit_terms(32769 * 96 * 3 + 3 * 96, 5, 96, 96), (3, 3));
    assert_eq!(fit_terms(32769 * 96 * 10, 5, 96, 96), (32769 * 5, 5));
    assert_eq!(fit_terms(32769 * 96 * 10, 0, 96, 96), (32769 * 9, 1));
    let fixed = 16 * 32768 * (12 + 96) + 16 * 96 + 96 + 4;
    assert_eq!(fit_terms_sorted(fixed, 96, 96), 0);
    assert_eq!(fit_terms_sorted(fixed + 96 + 224, 96, 96), 1);
    assert_eq!(fit_terms_sorted(fixed + 10 * (96 + 224) - 1, 96, 96), 9);
}

#[test]
fn chunk_sizes_of_devices() {
    assert_eq!(exp_size(), 32);
    assert_eq!(std::mem::size_of::<G1AffineM>(), 64);
    assert_eq!(std::mem::size_of::<G1Projective>(), 96);
    let mem = 8u64 << 30;
    let usable = ((mem as f64) * 0.8) as usize;
    let (n, wu) = calc_chunk_size::<G1Affine>(mem, 1280);
    assert_eq!(wu, 1280);
    assert_eq!(n, (usable - 1280 * 32769 * 96) / 96);
    let (n, wu) = calc_chunk_size::<G2Affine>(mem, 1280);
    assert_eq!(wu, usable / (32769 * 192 + 160));
    assert_eq!(n, (usable - wu * 32769 * 192) / 160);
    let fixed = 16 * 32768 * (12 + 96) + 16 * 96 + 96 + 4;
    assert_eq!(calc_chunk_size_sorted::<G1Affine>(mem), (usable - fixed) / (96 + 224));
    let kernel = SingleMultiexpKernel::<G1Affine>::create(
        program(),
        &device(mem, 10, None),
        false,
    )
    .unwrap();
    assert_eq!(kernel.chunk_size(), (usable - 1280 * 32769 * 96) / 96);
    assert_eq!(kernel.calc_window_size(1280 << 4), 6);
    assert_eq!(kernel.program().device_name(), "device");
}

#[test]
fn small_devices_do_not_fit() {
    // The buckets of one work unit take 32769 * 96 bytes, which must be 80% of the memory.
    let least = 32769 * 96 * 5 / 4;
    assert!(SingleMultiexpKernel::<G1Affine>::fits_device(&device(least, 1, None)));
    assert!(!SingleMultiexpKernel::<G1Affine>::fits_device(&device(least - 2, 1, None)));
    assert!(!SingleMultiexpKernel::<G2Affine>::fits_device(&device(least, 1, None)));
    assert!(!SingleMultiexpKernel::<G1Affine>::fits_device(&device(0, 1, Some((8, 0)))));
}

#[test]
fn kernels_need_a_device() {
    let none = MultiexpKernel::<G1Affine>::create(vec![program()], &[]);
    assert!(matches!(none, Err(EcError::Simple("No working GPUs found!"))));
    let none = MultiexpKernel::<G1Affine>::create_with_abort(vec![], &[device(1 << 33, 1, None)]);
    assert!(matches!(none, Err(EcError::Simple("No working GPUs found!"))));
    // As many kernels as there are pairs of program and device.
    let devices = [device(1 << 33, 1, None), device(1 << 33, 2, None)];
    let one = MultiexpKernel::<G1Affine>::create_with_abort(vec![program()], &devices).unwrap();
    assert_eq!(one.num_kernels(), 1);
    assert!(one.kernel(0).is_abortable());
}

#[test]
fn work_is_shared_among_devices() {
    let devices = [
        device(1 << 33, 1, None),
        device(1 << 33, 1, None),
        device(1 << 33, 1, None),
    ];
    let k = MultiexpKernel::<G1Affine>::create(vec![program(), program(), program()], &devices)
        .unwrap();
    let shares = k.parallel_multiexp(10);
    assert_eq!(shares, vec![vec![(0, 4)], vec![(4, 8)], vec![(8, 10)]]);
    // With fewer terms than devices some devices have nothing to do.
    let shares = k.parallel_multiexp(2);
    assert_eq!(shares.iter().flatten().copied().collect::<Vec<_>>(), vec![(0, 1), (1, 2)]);
    assert_eq!(split(3, 12, 4), vec![(3, 7), (7, 11), (11, 12)]);
    assert_eq!(split(3, 3, 4), vec![]);
    let bases = vec![G1AffineM::default(); 12];
    let (selected, shares) = k.multiexp(&bases, 10, 2);
    assert_eq!(selected.len(), 10);
    assert_eq!(shares, k.parallel_multiexp(10));
}

#[test]
fn a_device_stops_after_an_error() {
    let mut progress = DeviceProgress::<G1Projective>::new();
    assert!(progress.goes_on(false));
    assert!(!progress.goes_on(true));
    let failed = progress.take(Err(EcError::Aborted));
    assert!(matches!(failed, Some(EcError::Aborted)));
    assert!(!progress.goes_on(false));
    assert!(progress.result(true).is_none());
    assert!(progress.result(false).is_some());
}

#[test]
fn witness_chunks() {
    let s = WitnessShape::new(2, 1);
    assert_eq!((s.chunk_size, s.num_chunks), (1, 1));
    let s = WitnessShape::new(4097, 3);
    assert_eq!((s.chunk_size, s.num_chunks, s.num_points), (1, 4096, 3));
    let s = WitnessShape::new(8192, 1);
    assert_eq!((s.chunk_size, s.num_chunks), (1, 8191));
    let s = WitnessShape::new(8193, 1);
    assert_eq!((s.chunk_size, s.num_chunks), (2, 4096));
    let s = WitnessShape::new(1 << 20, 1);
    assert_eq!((s.chunk_size, s.num_chunks), (255, 4113));
}

#[test]
fn buffer_sizes_cover_all_msms() {
    let a = SortedMsmParams::with_window_size(1000, 254, 5);
    let b = SortedMsmParams::with_window_size(10, 254, 12);
    let s = MsmSizes::none().grown(a).grown(b);
    assert_eq!(
        s,
        MsmSizes {
            digits: 1000 * 51,
            pairs: 1000 * 51,
            buckets: 22 * 2048,
            windows: 51,
            chunks: 22 * 8,
        }
    );
    assert_eq!(s, MsmSizes::none().grown(b).grown(a));
    assert_eq!(s.grown(a), s);
}

#[test]
fn longest_polynomial() {
    let (a, b) = ([1u8, 2, 3], [4u8]);
    assert_eq!(max_len::<u8>(&[&b, &a, &b]), 3);
    assert_eq!(max_len::<u8>(&[]), 0);
}
