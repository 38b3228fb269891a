//! Devices, programs, kernels, transfers, names and errors.

use ec_gpu_gen::error::{EcError, GPUError};
use ec_gpu_gen::opencl::{
    Buffer, Device, DeviceUuid, Kernel, KernelArg, LocalBuffer, PciId, PersistentBuffer,
    PersistentPinnedBuffer, PersistentStream, Program, Stream, Transfer, Vendor,
};
use ec_gpu_gen::program::{choose_framework, Framework};
use ec_gpu_gen::session::KernelId;

fn program() -> Program {
    Program::new("GeForce RTX 3090".to_string(), vec!["one".to_string(), "two".to_string()])
}

fn device(name: &str, memory: u64, units: u32, uuid: Option<DeviceUuid>) -> Device {
    Device::new(Vendor(0x10de), name.to_string(), memory, units, Some((8, 6)), PciId(3), uuid)
}

#[test]
fn devices() {
    let id = DeviceUuid { high: 1, low: 2 };
    let d = device("a", 100, 5, Some(id));
    assert_eq!(d.vendor(), Vendor(0x10de));
    assert_eq!(d.name(), "a");
    assert_eq!(d.memory(), 100);
    assert_eq!(d.compute_units(), 5);
    assert_eq!(d.compute_capability(), Some((8, 6)));
    assert_eq!(d.pci_id(), PciId(3));
    assert_eq!(d.uuid(), Some(id));
    // The number of compute units does not tell devices apart.
    assert!(d == device("a", 100, 6, Some(id)));
    assert!(d != device("b", 100, 5, Some(id)));
    assert!(d != device("a", 101, 5, Some(id)));
    assert!(d != device("a", 100, 5, None));
    assert!(d != device("a", 100, 5, Some(DeviceUuid { high: 1, low: 3 })));
}

#[test]
fn kernels_by_name() {
    let p = program();
    assert_eq!(p.device_name(), "GeForce RTX 3090");
    let k = p.create_kernel("two", 4, 256).unwrap();
    assert_eq!(k.name(), "two");
    assert_eq!((k.global_work_size(), k.local_work_size()), (1024, 256));
    assert_eq!(k.queue(), None);
    assert!(matches!(p.create_kernel("three", 4, 256), Err(GPUError::KernelNotFound(n)) if n == "three"));
    assert!(matches!(p.get_cached_function("one"), Ok(0)));
    assert!(matches!(p.get_cached_function("on"), Err(GPUError::KernelNotFound(n)) if n == "on"));
    let s = Stream { handle: 9 };
    let k = p.create_kernel_on_stream(&s, "one", 3, 5).unwrap();
    assert_eq!((k.queue(), k.global_work_size()), (Some(9), 15));
    assert!(matches!(
        p.create_kernel_on_stream(&s, "", 1, 1),
        Err(GPUError::KernelNotFound(n)) if n.is_empty()
    ));
}

#[test]
fn kernel_arguments() {
    let buffer = Buffer::<u32>::new(7, 10);
    let persistent = PersistentBuffer::Opencl(Buffer::<u8>::new(8, 1));
    let k: Kernel = program()
        .create_kernel("one", 1, 1)
        .unwrap()
        .arg(&buffer)
        .arg(&persistent)
        .arg(&-3i32)
        .arg(&4u32)
        .arg(&LocalBuffer::<u64>::new(16));
    assert_eq!(
        k.args(),
        &vec![
            KernelArg::Buffer(7),
            KernelArg::Buffer(8),
            KernelArg::I32(-3),
            KernelArg::U32(4),
            KernelArg::LocalBytes(128),
        ]
    );
    let k = k.run().unwrap();
    let k = k.arg(&LocalBuffer::<u8>::new(1));
    assert!(matches!(
        k.run_async(),
        Err(GPUError::Generic(s)) if s == "There cannot be more than one `LocalBuffer`."
    ));
}

#[test]
fn buffers_and_transfers() {
    let p = program();
    let request = p.create_buffer::<u32>(10);
    assert_eq!(request.bytes(), 40);
    let buffer = request.made(Ok(77)).unwrap();
    assert_eq!((buffer.handle(), buffer.length()), (77, 10));
    assert!(buffer.holds(10) && !buffer.holds(11));
    let refused = p.create_buffer::<u32>(10).made(Err(-61));
    assert!(matches!(refused, Err(GPUError::Opencl3(-61, None))));
    let data = [1u32, 2, 3];
    assert_eq!(p.create_buffer_from_slice(&data).bytes(), 12);
    assert_eq!(p.create_buffer_from_slice::<u64>(&[]).bytes(), 0);
    let kept = p.create_persistent_buffer_from_slice(p.create_buffer_from_slice(&data), Ok(5));
    let PersistentBuffer::Opencl(kept) = kept.unwrap();
    assert_eq!((kept.handle(), kept.length()), (5, 3));
    let refused =
        p.create_persistent_buffer_from_slice(p.create_buffer_from_slice(&data), Err(-4));
    assert!(matches!(refused, Err(GPUError::Opencl3(-4, None))));
    let plain = Transfer { queue: None, handle: 77, bytes: 12, blocking: true };
    assert_eq!(p.write_from_buffer(&buffer, &data), plain);
    assert_eq!(p.read_into_buffer(&buffer, &data), plain);
    let later = Transfer { blocking: false, ..plain };
    assert_eq!(p.write_from_buffer_async(&buffer, &data), later);
    let s = p.create_stream(Ok(3)).unwrap();
    assert_eq!(
        p.write_from_buffer_on_stream(&buffer, &data, &s),
        Transfer { queue: Some(3), ..later }
    );
    assert!(matches!(p.create_stream(Err(-5)), Err(GPUError::Opencl3(-5, None))));
}

#[test]
fn streams_and_contexts() {
    let p = program();
    assert!(p.synchronize(Ok(())).is_ok());
    assert!(matches!(p.synchronize(Err(-36)), Err(GPUError::Opencl3(-36, None))));
    let s = PersistentStream::Opencl(Stream { handle: 1 });
    assert!(s.synchronize(Ok(())).is_ok());
    assert!(matches!(s.synchronize(Err(-5)), Err(GPUError::Opencl3(-5, None))));
    assert!(p.push_context().is_ok());
    p.pop_context_public();
    let r: Result<usize, EcError> = p.run(|p, n: usize| Ok(p.device_name().len() + n), 4);
    assert_eq!(r.unwrap(), 20);
}

#[test]
fn pinned_host_buffers() {
    let mut b = program().create_pinned_host_buffer(3, 9u16).unwrap();
    assert_eq!(b.as_slice(), &[9, 9, 9]);
    b.set(1, 4);
    assert_eq!(b.as_slice(), &[9, 4, 9]);
    assert_eq!(PersistentPinnedBuffer::Opencl(b).as_slice(), &[9, 4, 9]);
}

#[test]
fn kernel_names() {
    let name = |k: KernelId| k.kernel_name("fr", "g1");
    assert_eq!(name(KernelId::FixVar), "fr_fix_var");
    assert_eq!(name(KernelId::FixVarIndexed), "fr_fix_var_indexed");
    assert_eq!(name(KernelId::FixVarToScalar), "fr_fix_var_to_scalar");
    assert_eq!(name(KernelId::LinearCombine), "fr_linear_combine");
    assert_eq!(name(KernelId::LinearCombineAccumulate), "fr_linear_combine_accumulate");
    assert_eq!(name(KernelId::WitnessPolySequential), "fr_witness_poly_sequential");
    assert_eq!(name(KernelId::WitnessPolyBatch), "fr_witness_poly_batch");
    assert_eq!(name(KernelId::WitnessPolyBatchPhase1), "fr_witness_poly_batch_phase1");
    assert_eq!(name(KernelId::WitnessCarryPropagate), "fr_witness_carry_propagate");
    assert_eq!(name(KernelId::WitnessPolyBatchPhase3), "fr_witness_poly_batch_phase3");
    assert_eq!(name(KernelId::ScalePoly), "fr_scale_poly");
    assert_eq!(name(KernelId::AddPoly), "fr_add_poly");
    assert_eq!(name(KernelId::SubPoly), "fr_sub_poly");
    assert_eq!(name(KernelId::EvalUnivariateBatch), "fr_eval_univariate_batch");
    assert_eq!(name(KernelId::ToScalarBytes), "fr_to_scalar_bytes");
    assert_eq!(name(KernelId::ToScalarBytesOffset), "fr_to_scalar_bytes_offset");
    assert_eq!(name(KernelId::PreprocessSignedDigits), "g1_preprocess_signed_digits");
    assert_eq!(name(KernelId::MultiexpSigned), "g1_multiexp_signed");
    assert_eq!(name(KernelId::DecomposeToPairs), "g1_decompose_to_pairs");
    assert_eq!(name(KernelId::CountBuckets), "g1_count_buckets");
    assert_eq!(name(KernelId::PrefixSum), "g1_prefix_sum");
    assert_eq!(name(KernelId::ScatterToSorted), "g1_scatter_to_sorted");
    assert_eq!(name(KernelId::AccumulateSortedBuckets), "g1_accumulate_sorted_buckets");
    assert_eq!(name(KernelId::AccumulateAllSortedBuckets), "g1_accumulate_all_sorted_buckets");
    assert_eq!(name(KernelId::AccumulateChunked), "g1_accumulate_chunked");
    assert_eq!(name(KernelId::ReducePartialBuckets), "g1_reduce_partial_buckets");
    assert_eq!(name(KernelId::ReduceBucketsChunked), "g1_reduce_buckets_chunked");
    assert_eq!(name(KernelId::CombineChunksToWindows), "g1_combine_chunks_to_windows");
    assert_eq!(name(KernelId::ReduceWindows), "g1_reduce_windows");
    assert_eq!(name(KernelId::CopyAtOffset), "g1_copy_at_offset");
    assert_eq!(name(KernelId::BatchScalarMul), "g1_batch_scalar_mul");
    assert_eq!(name(KernelId::U32FillZero), "u32_fill_zero");
    assert_eq!(name(KernelId::U32CopyBuffer), "u32_copy_buffer");
}

#[test]
fn error_messages() {
    assert_eq!(EcError::Simple("No working GPUs found!").message(""), "EcError: No working GPUs found!");
    assert_eq!(EcError::Aborted.message(""), "GPU call was aborted!");
    let e = EcError::from(GPUError::KernelNotFound("k".to_string()));
    assert!(matches!(e, EcError::GpuTools(_)));
    assert_eq!(e.message("no kernel k"), "GPU tools error: no kernel k");
    assert_eq!(
        EcError::Io("disk full".to_string()).message(""),
        "Encountered an I/O error: disk full"
    );
}

#[test]
fn framework_from_the_environment() {
    let cl = Framework::Opencl;
    assert!(matches!(choose_framework(None, cl, true), Ok(Framework::Opencl)));
    assert!(matches!(choose_framework(None, Framework::Cuda, false), Ok(Framework::Cuda)));
    assert!(matches!(choose_framework(Some("cuda"), cl, true), Ok(Framework::Cuda)));
    assert!(matches!(choose_framework(Some("opencl"), cl, true), Ok(Framework::Opencl)));
    assert!(matches!(choose_framework(Some("CUDA"), cl, true), Ok(Framework::Opencl)));
    assert!(matches!(
        choose_framework(Some("cuda"), cl, false),
        Err(EcError::Simple(
            "CUDA framework is not supported, please compile with the `cuda` feature enabled."
        ))
    ));
}

/// The memory of a device, to which transfers are applied.
struct Memory {
    buffers: Vec<Vec<u8>>,
}

impl Memory {
    fn write(&mut self, t: Transfer, data: &[u32]) {
        let bytes: Vec<u8> = data.iter().flat_map(|v| v.to_le_bytes()).collect();
        self.buffers[t.handle as usize][..t.bytes].copy_from_slice(&bytes[..t.bytes]);
    }

    fn read(&self, t: Transfer) -> Vec<u32> {
        self.buffers[t.handle as usize][..t.bytes]
            .chunks(4)
            .map(|b| u32::from_le_bytes([b[0], b[1], b[2], b[3]]))
            .collect()
    }
}

#[test]
fn a_read_gives_back_what_was_written() {
    let program = Program::new("device".to_string(), Vec::new());
    let (s, w) = ([1u32, 2, 3, 4, 5], [70u32, 80]);
    let request = program.create_buffer_from_slice(&s);
    let mut memory = Memory { buffers: vec![vec![9; 8], vec![0xaa; request.bytes()]] };
    let buffer = request.made(Ok(1)).unwrap();
    memory.write(program.write_from_buffer(&buffer, &s), &s);
    assert_eq!(memory.read(program.read_into_buffer(&buffer, &[0u32; 5])), s);
    memory.write(program.write_from_buffer(&buffer, &w), &w);
    assert_eq!(memory.read(program.read_into_buffer(&buffer, &[0u32; 5])), [70, 80, 3, 4, 5]);
    assert_eq!(memory.read(program.read_into_buffer(&buffer, &[0u32; 1])), [70]);
    // Other buffers stay as they are.
    assert_eq!(memory.buffers[0], vec![9; 8]);
    // More than the buffer holds cannot be read.
    assert!(buffer.holds(5) && !buffer.holds(6));
}
