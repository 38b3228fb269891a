//! Devices, programs, buffers and kernels as the host keeps books on them.
//!
//! Handles of the driver are numbers here. Whoever owns the driver maps them to its objects.

use std::marker::PhantomData;

use vstd::prelude::*;
use vstd::string::*;

use crate::error::{GPUError, GPUResult};

verus! {

/// The vendor of a device, by its identification number.
#[derive(Copy, Clone, Debug, PartialEq, Eq, Hash, Structural)]
pub struct Vendor(pub u32);

/// The PCI-ID of a device.
#[derive(Copy, Clone, Debug, PartialEq, Eq, Hash, Structural)]
pub struct PciId(pub u32);

/// The UUID of a device.
#[derive(Copy, Clone, Debug, PartialEq, Eq, Hash, Structural)]
pub struct DeviceUuid {
    /// The first eight bytes, as a number.
    pub high: u64,
    /// The last eight bytes, as a number.
    pub low: u64,
}

/// OpenCL specific device.
#[derive(Debug, Clone)]
pub struct Device {
    vendor: Vendor,
    name: String,
    memory: u64,
    compute_units: u32,
    compute_capability: Option<(u32, u32)>,
    pci_id: PciId,
    uuid: Option<DeviceUuid>,
}

/// What is known about a [`Device`].
pub struct DeviceView {
    pub vendor: Vendor,
    pub name: Seq<char>,
    pub memory: u64,
    pub compute_units: u32,
    pub compute_capability: Option<(u32, u32)>,
    pub pci_id: PciId,
    pub uuid: Option<DeviceUuid>,
}

impl View for Device {
    type V = DeviceView;

    closed spec fn view(&self) -> DeviceView {
        DeviceView {
            vendor: self.vendor,
            name: self.name@,
            memory: self.memory,
            compute_units: self.compute_units,
            compute_capability: self.compute_capability,
            pci_id: self.pci_id,
            uuid: self.uuid,
        }
    }
}

fn same_uuid(a: Option<DeviceUuid>, b: Option<DeviceUuid>) -> (r: bool)
    ensures
        r == (a == b),
{
    match (a, b) {
        (Some(x), Some(y)) => x == y,
        (None, None) => true,
        _ => false,
    }
}

impl vstd::std_specs::cmp::PartialEqSpecImpl for Device {
    open spec fn obeys_eq_spec() -> bool {
        true
    }

    /// Devices are the same if vendor, name, memory, PCI-ID and UUID are.
    open spec fn eq_spec(&self, other: &Self) -> bool {
        &&& self@.vendor == other@.vendor
        &&& self@.name == other@.name
        &&& self@.memory == other@.memory
        &&& self@.pci_id == other@.pci_id
        &&& self@.uuid == other@.uuid
    }
}

impl PartialEq for Device {
    fn eq(&self, other: &Self) -> (r: bool) {
        self.vendor == other.vendor && self.name == other.name && self.memory == other.memory
            && self.pci_id == other.pci_id && same_uuid(self.uuid, other.uuid)
    }
}

impl Eq for Device {

}

impl Device {
    /// A device with the given properties.
    pub fn new(
        vendor: Vendor,
        name: String,
        memory: u64,
        compute_units: u32,
        compute_capability: Option<(u32, u32)>,
        pci_id: PciId,
        uuid: Option<DeviceUuid>,
    ) -> (d: Self)
        ensures
            d@ == (DeviceView {
                vendor,
                name: name@,
                memory,
                compute_units,
                compute_capability,
                pci_id,
                uuid,
            }),
    {
        Device { vendor, name, memory, compute_units, compute_capability, pci_id, uuid }
    }

    /// Returns the [`Vendor`] of the GPU.
    pub fn vendor(&self) -> (r: Vendor)
        ensures
            r == self@.vendor,
    {
        self.vendor
    }

    /// Returns the name of the GPU, e.g. "GeForce RTX 3090".
    pub fn name(&self) -> (r: String)
        ensures
            r@ == self@.name,
    {
        self.name.clone()
    }

    /// Returns the memory of the GPU in bytes.
    pub fn memory(&self) -> (r: u64)
        ensures
            r == self@.memory,
    {
        self.memory
    }

    /// Returns the number of compute units of the GPU.
    pub fn compute_units(&self) -> (r: u32)
        ensures
            r == self@.compute_units,
    {
        self.compute_units
    }

    /// Returns the major and minor version of the compute capability (only available on Nvidia
    /// GPUs).
    pub fn compute_capability(&self) -> (r: Option<(u32, u32)>)
        ensures
            r == self@.compute_capability,
    {
        self.compute_capability
    }

    /// Returns the PCI-ID of the GPU, see the [`PciId`] type for more information.
    pub fn pci_id(&self) -> (r: PciId)
        ensures
            r == self@.pci_id,
    {
        self.pci_id
    }

    /// Returns the UUID of the GPU if available, see the [`DeviceUuid`] type for more information.
    pub fn uuid(&self) -> (r: Option<DeviceUuid>)
        ensures
            r == self@.uuid,
    {
        self.uuid
    }
}

/// A buffer on the GPU.
///
/// The concept of a local buffer is from OpenCL. In CUDA you don't allocate a buffer directly
/// via API call. Instead you pass in the amount of shared memory that should be used.
///
/// There can be at most a single local buffer per kernel. On CUDA a null pointer will be passed
/// in, instead of an actual value. The memory that should get allocated is then passed into the
/// kernel call automatically.
#[derive(Debug)]
pub struct LocalBuffer<T> {
    length: usize,
    _phantom: PhantomData<T>,
}

impl<T> LocalBuffer<T> {
    /// The number of T sized elements.
    pub closed spec fn spec_len(&self) -> nat {
        self.length as nat
    }

    /// Returns a new buffer of the specified `length`.
    pub fn new(length: usize) -> (r: Self)
        ensures
            r.spec_len() == length,
    {
        LocalBuffer { length, _phantom: PhantomData }
    }
}

/// A Buffer to be used for sending and receiving data to/from the GPU.
#[derive(Debug)]
pub struct Buffer<T> {
    handle: u64,
    length: usize,
    _phantom: PhantomData<T>,
}

impl<T> Buffer<T> {
    /// The handle that the driver knows the buffer by.
    pub closed spec fn spec_handle(&self) -> u64 {
        self.handle
    }

    /// The number of T-sized elements.
    pub closed spec fn spec_len(&self) -> nat {
        self.length as nat
    }

    /// A buffer of `length` elements that the driver knows by `handle`.
    pub fn new(handle: u64, length: usize) -> (r: Self)
        ensures
            r.spec_handle() == handle,
            r.spec_len() == length,
    {
        Buffer { handle, length, _phantom: PhantomData }
    }

    /// The handle that the driver knows the buffer by.
    pub fn handle(&self) -> (r: u64)
        ensures
            r == self.spec_handle(),
    {
        self.handle
    }

    /// The number of T-sized elements.
    pub fn length(&self) -> (r: usize)
        ensures
            r == self.spec_len(),
    {
        self.length
    }

    /// Whether `len` elements can be written to or read from the buffer.
    pub fn holds(&self, len: usize) -> (r: bool)
        ensures
            r == (len <= self.spec_len()),
    {
        len <= self.length
    }
}

/// A buffer that the driver is to be asked for.
#[derive(Debug)]
pub struct BufferRequest<T> {
    length: usize,
    bytes: usize,
    _phantom: PhantomData<T>,
}

impl<T> BufferRequest<T> {
    /// The number of T-sized elements.
    pub closed spec fn spec_len(&self) -> nat {
        self.length as nat
    }

    /// The number of bytes.
    pub closed spec fn spec_bytes(&self) -> nat {
        self.bytes as nat
    }

    /// The number of bytes.
    pub fn bytes(&self) -> (r: usize)
        ensures
            r == self.spec_bytes(),
    {
        self.bytes
    }

    /// The buffer, given the handle that the driver gave for it or the status code that it failed
    /// with.
    pub fn made(self, created: Result<u64, i32>) -> (r: GPUResult<Buffer<T>>)
        ensures
            created matches Ok(h) ==> (r matches Ok(b) && b.spec_handle() == h && b.spec_len()
                == self.spec_len()),
            created matches Err(code) ==> r == Err::<Buffer<T>, GPUError>(
                GPUError::Opencl3(code, None),
            ),
    {
        match created {
            Ok(handle) => Ok(Buffer { handle, length: self.length, _phantom: PhantomData }),
            Err(code) => Err(GPUError::Opencl3(code, None)),
        }
    }
}

/// A transfer between host and device that the driver is to make, from the start of a buffer.
#[derive(Copy, Clone, Debug, PartialEq, Eq, Structural)]
pub struct Transfer {
    /// The handle of the stream, or `None` for the queue of the program.
    pub queue: Option<u64>,
    /// The handle of the buffer.
    pub handle: u64,
    /// The number of bytes.
    pub bytes: usize,
    /// Whether to wait for the end.
    pub blocking: bool,
}

/// The transfer of the first `len` elements of a buffer.
pub open spec fn transfer_of<T>(
    queue: Option<u64>,
    handle: u64,
    len: nat,
    blocking: bool,
) -> Transfer {
    Transfer {
        queue,
        handle,
        bytes: (len * vstd::layout::size_of::<T>()) as usize,
        blocking,
    }
}

/// The memory of a device: the bytes of each buffer, by handle.
pub type Memory = Map<u64, Seq<u8>>;

/// The memory after a transfer of the bytes of `host` to the device: they replace the beginning of
/// the buffer, and the rest of it stays.
pub open spec fn memory_after_write(memory: Memory, t: Transfer, host: Seq<u8>) -> Memory {
    memory.insert(t.handle, host.take(t.bytes as int) + memory[t.handle].skip(t.bytes as int))
}

/// The bytes that a transfer to the host gives.
pub open spec fn memory_read(memory: Memory, t: Transfer) -> Seq<u8> {
    memory[t.handle].take(t.bytes as int)
}

/// The bytes of elements, one after the other.
pub open spec fn bytes_of<T>(layout: spec_fn(T) -> Seq<u8>, s: Seq<T>) -> Seq<u8>
    decreases s.len(),
{
    if s.len() == 0 {
        Seq::empty()
    } else {
        bytes_of(layout, s.drop_last()) + layout(s.last())
    }
}

/// Whether `layout` gives the bytes of elements: as many as an element has, and different ones for
/// different elements.
pub open spec fn is_layout<T>(layout: spec_fn(T) -> Seq<u8>) -> bool {
    &&& forall|v: T| (#[trigger] layout(v)).len() == vstd::layout::size_of::<T>()
    &&& forall|v: T, w: T| #[trigger] layout(v) == #[trigger] layout(w) ==> v == w
}

proof fn bytes_of_len<T>(layout: spec_fn(T) -> Seq<u8>, s: Seq<T>)
    requires
        is_layout(layout),
    ensures
        bytes_of(layout, s).len() == s.len() * vstd::layout::size_of::<T>(),
    decreases s.len(),
{
    if s.len() > 0 {
        bytes_of_len(layout, s.drop_last());
        let n = s.len() as int;
        let k = vstd::layout::size_of::<T>() as int;
        assert((n - 1) * k + k == n * k) by (nonlinear_arith);
    } else {
        assert(0 * vstd::layout::size_of::<T>() == 0);
    }
}

proof fn bytes_of_concat<T>(layout: spec_fn(T) -> Seq<u8>, a: Seq<T>, b: Seq<T>)
    ensures
        bytes_of(layout, a + b) == bytes_of(layout, a) + bytes_of(layout, b),
    decreases b.len(),
{
    if b.len() == 0 {
        assert(a + b =~= a);
        assert(bytes_of(layout, a) + bytes_of(layout, b) =~= bytes_of(layout, a));
    } else {
        bytes_of_concat(layout, a, b.drop_last());
        assert((a + b).drop_last() =~= a + b.drop_last());
        assert((bytes_of(layout, a) + bytes_of(layout, b.drop_last())) + layout(b.last())
            =~= bytes_of(layout, a) + (bytes_of(layout, b.drop_last()) + layout(b.last())));
    }
}

/// Elements are known by their bytes.
proof fn bytes_determine<T>(layout: spec_fn(T) -> Seq<u8>, a: Seq<T>, b: Seq<T>)
    requires
        is_layout(layout),
        a.len() == b.len(),
        bytes_of(layout, a) == bytes_of(layout, b),
    ensures
        a == b,
    decreases a.len(),
{
    if a.len() > 0 {
        let x = a.drop_last();
        let y = b.drop_last();
        bytes_of_len(layout, x);
        bytes_of_len(layout, y);
        let p = bytes_of(layout, x);
        let q = bytes_of(layout, y);
        let u = layout(a.last());
        let v = layout(b.last());
        assert(p =~= (p + u).take(p.len() as int));
        assert(q =~= (q + v).take(q.len() as int));
        assert(u =~= (p + u).skip(p.len() as int));
        assert(v =~= (q + v).skip(q.len() as int));
        bytes_determine(layout, x, y);
        assert(a =~= x.push(a.last()));
        assert(b =~= y.push(b.last()));
    } else {
        assert(a =~= b);
    }
}

/// A read gives back what was written: after a buffer has been made from `s`, and its beginning has
/// been overwritten by `w`, the first elements of the buffer are those of `w`, followed by those of
/// `s` that were not overwritten.
pub proof fn read_gives_back_writes<T>(
    layout: spec_fn(T) -> Seq<u8>,
    memory: Memory,
    handle: u64,
    s: Seq<T>,
    w: Seq<T>,
    data: Seq<T>,
)
    requires
        is_layout(layout),
        s.len() * vstd::layout::size_of::<T>() <= usize::MAX,
        w.len() <= s.len(),
        data.len() <= s.len(),
        memory[handle].len() == s.len() * vstd::layout::size_of::<T>(),
        ({
            let made = memory_after_write(
                memory,
                transfer_of::<T>(None, handle, s.len(), true),
                bytes_of(layout, s),
            );
            let changed = memory_after_write(
                made,
                transfer_of::<T>(None, handle, w.len(), true),
                bytes_of(layout, w),
            );
            bytes_of(layout, data) == memory_read(
                changed,
                transfer_of::<T>(None, handle, data.len(), true),
            )
        }),
    ensures
        data == (w + s.skip(w.len() as int)).take(data.len() as int),
{
    let size = vstd::layout::size_of::<T>() as int;
    let n = s.len() as int;
    let k = w.len() as int;
    let m = data.len() as int;
    assert(k * size <= n * size && m * size <= n * size) by (nonlinear_arith)
        requires
            0 <= k <= n,
            0 <= m <= n,
            size >= 0,
    ;
    let all = w + s.skip(k);
    let sb = bytes_of(layout, s);
    let wb = bytes_of(layout, w);
    bytes_of_len(layout, s);
    bytes_of_len(layout, w);
    bytes_of_len(layout, s.take(k));
    bytes_of_concat(layout, s.take(k), s.skip(k));
    assert(s.take(k) + s.skip(k) =~= s);
    bytes_of_concat(layout, w, s.skip(k));
    let ab = bytes_of(layout, all);
    let made = sb.take(n * size) + memory[handle].skip(n * size);
    assert(made =~= sb);
    let changed = wb.take(k * size) + made.skip(k * size);
    assert(changed =~= wb + sb.skip(k * size));
    assert(sb.skip(k * size) =~= bytes_of(layout, s.skip(k)));
    assert(changed == ab);
    bytes_of_concat(layout, all.take(m), all.skip(m));
    assert(all.take(m) + all.skip(m) =~= all);
    bytes_of_len(layout, all.take(m));
    assert(ab.take(m * size) =~= bytes_of(layout, all.take(m)));
    bytes_determine(layout, data, all.take(m));
}

/// Host memory buffer for GPU transfers (OpenCL fallback: no actual pinning).
///
/// On CUDA, the equivalent type wraps page-locked memory for truly async DMA.
/// On OpenCL, this is a plain `Vec<T>` wrapper with the same typed-access API.
#[derive(Debug)]
pub struct PinnedHostBuffer<T> {
    buffer: Vec<T>,
}

impl<T> View for PinnedHostBuffer<T> {
    type V = Seq<T>;

    closed spec fn view(&self) -> Seq<T> {
        self.buffer@
    }
}

impl<T> PinnedHostBuffer<T> {
    /// The contents.
    pub fn as_slice(&self) -> (r: &[T])
        ensures
            r@ == self@,
    {
        self.buffer.as_slice()
    }

    /// Overwrite one element.
    pub fn set(&mut self, i: usize, value: T)
        requires
            i < old(self)@.len(),
        ensures
            final(self)@ == old(self)@.update(i as int, value),
    {
        self.buffer.set(i, value);
    }
}

/// A GPU buffer that persists across runs of a program.
///
/// Wraps backend-specific buffer types so that it can be used as a kernel argument
/// transparently. This enables uploading large data (e.g. SRS bases) once and reusing across
/// multiple GPU sessions.
#[derive(Debug)]
pub enum PersistentBuffer<T> {
    /// OpenCL persistent buffer.
    Opencl(Buffer<T>),
}

/// An OpenCL command queue acting as a "stream" for concurrent execution.
///
/// Analogous to CUDA streams: operations on the same Stream execute in order,
/// but different Streams can execute concurrently on the GPU.
#[derive(Debug)]
pub struct Stream {
    /// The handle that the driver knows the queue by.
    pub handle: u64,
}

/// A GPU stream that persists across runs of a program.
#[derive(Debug)]
pub enum PersistentStream {
    /// OpenCL persistent stream.
    Opencl(Stream),
}

/// The result of a driver call, given the status code that it failed with.
pub open spec fn driver_result(status: Result<(), i32>) -> GPUResult<()> {
    match status {
        Ok(()) => Ok(()),
        Err(code) => Err(GPUError::Opencl3(code, None)),
    }
}

impl Stream {
    /// Synchronize this stream, waiting for all enqueued operations to complete.
    ///
    /// `finished` is what the driver said when told to finish the queue.
    pub fn synchronize(&self, finished: Result<(), i32>) -> (r: GPUResult<()>)
        ensures
            r == driver_result(finished),
    {
        match finished {
            Ok(()) => Ok(()),
            Err(code) => Err(GPUError::Opencl3(code, None)),
        }
    }
}

impl PersistentStream {
    /// Synchronize the stream, waiting for all pending operations to complete.
    ///
    /// `finished` is what the driver said when told to finish the queue.
    pub fn synchronize(&self, finished: Result<(), i32>) -> (r: GPUResult<()>)
        ensures
            r == driver_result(finished),
    {
        match self {
            PersistentStream::Opencl(s) => s.synchronize(finished),
        }
    }
}

/// Host memory that persists across runs of a program.
#[derive(Debug)]
pub enum PersistentPinnedBuffer<T> {
    /// OpenCL persistent pinned buffer (regular heap allocation fallback).
    Opencl(PinnedHostBuffer<T>),
}

impl<T> PersistentPinnedBuffer<T> {
    /// The contents.
    pub fn as_slice(&self) -> (r: &[T])
        ensures
            self matches PersistentPinnedBuffer::Opencl(b) && r@ == b@,
    {
        match self {
            PersistentPinnedBuffer::Opencl(b) => b.as_slice(),
        }
    }
}

/// An argument of a kernel, as it is handed to the driver.
#[derive(Copy, Clone, Debug, PartialEq, Eq, Structural)]
pub enum KernelArg {
    /// The buffer with a handle.
    Buffer(u64),
    /// A signed number.
    I32(i32),
    /// An unsigned number.
    U32(u32),
    /// Local memory of this many bytes.
    LocalBytes(usize),
}

/// A kernel that can be executed.
#[derive(Debug)]
pub struct Kernel {
    queue: Option<u64>,
    name: String,
    global_work_size: usize,
    local_work_size: usize,
    args: Vec<KernelArg>,
    num_local_buffers: u8,
}

/// What is known about a [`Kernel`].
#[verifier::ext_equal]
pub struct KernelView {
    /// The stream that the kernel is bound to, or `None` for the queue of the program.
    pub queue: Option<u64>,
    pub name: Seq<char>,
    pub global_work_size: nat,
    pub local_work_size: nat,
    pub args: Seq<KernelArg>,
}

/// How many arguments are local buffers.
pub open spec fn num_local(args: Seq<KernelArg>) -> nat
    decreases args.len(),
{
    if args.len() == 0 {
        0
    } else {
        num_local(args.drop_last()) + (if args.last() is LocalBytes {
            1nat
        } else {
            0
        })
    }
}

impl View for Kernel {
    type V = KernelView;

    closed spec fn view(&self) -> KernelView {
        KernelView {
            queue: self.queue,
            name: self.name@,
            global_work_size: self.global_work_size as nat,
            local_work_size: self.local_work_size as nat,
            args: self.args@,
        }
    }
}

/// Abstraction for kernel arguments.
///
/// The kernel doesn't support being called with custom types, hence some conversion might be
/// needed. This trait enables automatic coversions, so that any type implementing it can be
/// passed into a [`Kernel`].
pub trait KernelArgument {
    /// What the driver is handed.
    spec fn as_arg(&self) -> KernelArg;

    /// Whether what the driver is handed fits in its type.
    spec fn arg_ok(&self) -> bool;

    /// Apply the kernel argument to the kernel.
    fn push(&self, kernel: &mut Kernel)
        requires
            old(kernel).wf(),
            self.arg_ok(),
            self.as_arg() is LocalBytes ==> num_local(old(kernel)@.args) < 255,
        ensures
            final(kernel).wf(),
            final(kernel)@ == (KernelView {
                args: old(kernel)@.args.push(self.as_arg()),
                ..old(kernel)@
            }),
    ;
}

impl Kernel {
    /// The number of local buffers is counted.
    pub closed spec fn wf(&self) -> bool {
        self.num_local_buffers == num_local(self.args@)
    }

    fn push_arg(&mut self, arg: KernelArg)
        requires
            old(self).wf(),
            arg is LocalBytes ==> num_local(old(self)@.args) < 255,
        ensures
            final(self).wf(),
            final(self)@ == (KernelView { args: old(self)@.args.push(arg), ..old(self)@ }),
    {
        self.args.push(arg);
        assert(self.args@.drop_last() =~= old(self).args@);
        match arg {
            KernelArg::LocalBytes(_) => {
                self.num_local_buffers = self.num_local_buffers + 1;
            },
            _ => {},
        }
    }

    /// Set a kernel argument.
    pub fn arg<T: KernelArgument>(self, t: &T) -> (r: Self)
        requires
            self.wf(),
            t.arg_ok(),
            t.as_arg() is LocalBytes ==> num_local(self@.args) < 255,
        ensures
            r.wf(),
            r@ == (KernelView { args: self@.args.push(t.as_arg()), ..self@ }),
    {
        let mut k = self;
        t.push(&mut k);
        k
    }

    /// The handle of the stream that the kernel is bound to, or `None` for the queue of the program.
    pub fn queue(&self) -> (r: Option<u64>)
        ensures
            r == self@.queue,
    {
        self.queue
    }

    /// The name of the kernel.
    pub fn name(&self) -> (r: &str)
        ensures
            r@ == self@.name,
    {
        self.name.as_str()
    }

    /// The total number of threads.
    pub fn global_work_size(&self) -> (r: usize)
        ensures
            r == self@.global_work_size,
    {
        self.global_work_size
    }

    /// The number of threads of a thread group.
    pub fn local_work_size(&self) -> (r: usize)
        ensures
            r == self@.local_work_size,
    {
        self.local_work_size
    }

    /// The arguments in the order in which they were set.
    pub fn args(&self) -> (r: &Vec<KernelArg>)
        ensures
            r@ == self@.args,
    {
        &self.args
    }

    /// Actually run the kernel.
    ///
    /// Returns what is to be handed to the driver.
    pub fn run(self) -> (r: GPUResult<Kernel>)
        requires
            self.wf(),
        ensures
            num_local(self@.args) > 1 ==> (r matches Err(GPUError::Generic(s)) && s@
                == "There cannot be more than one `LocalBuffer`."@),
            num_local(self@.args) <= 1 ==> r == Ok::<Kernel, GPUError>(self),
    {
        if self.num_local_buffers > 1 {
            return Err(
                GPUError::Generic(
                    String::from_str("There cannot be more than one `LocalBuffer`."),
                ),
            );
        }
        Ok(self)
    }

    /// Launch the kernel asynchronously without waiting for completion.
    /// On OpenCL this is identical to `run()` since enqueue is already async.
    pub fn run_async(self) -> (r: GPUResult<Kernel>)
        requires
            self.wf(),
        ensures
            num_local(self@.args) > 1 ==> (r matches Err(GPUError::Generic(s)) && s@
                == "There cannot be more than one `LocalBuffer`."@),
            num_local(self@.args) <= 1 ==> r == Ok::<Kernel, GPUError>(self),
    {
        self.run()
    }
}

impl<T> KernelArgument for Buffer<T> {
    open spec fn as_arg(&self) -> KernelArg {
        KernelArg::Buffer(self.spec_handle())
    }

    open spec fn arg_ok(&self) -> bool {
        true
    }

    fn push(&self, kernel: &mut Kernel) {
        kernel.push_arg(KernelArg::Buffer(self.handle));
    }
}

impl KernelArgument for i32 {
    open spec fn as_arg(&self) -> KernelArg {
        KernelArg::I32(*self)
    }

    open spec fn arg_ok(&self) -> bool {
        true
    }

    fn push(&self, kernel: &mut Kernel) {
        kernel.push_arg(KernelArg::I32(*self));
    }
}

impl KernelArgument for u32 {
    open spec fn as_arg(&self) -> KernelArg {
        KernelArg::U32(*self)
    }

    open spec fn arg_ok(&self) -> bool {
        true
    }

    fn push(&self, kernel: &mut Kernel) {
        kernel.push_arg(KernelArg::U32(*self));
    }
}

impl<T> KernelArgument for PersistentBuffer<T> {
    open spec fn as_arg(&self) -> KernelArg {
        match self {
            PersistentBuffer::Opencl(b) => b.as_arg(),
        }
    }

    open spec fn arg_ok(&self) -> bool {
        true
    }

    fn push(&self, kernel: &mut Kernel) {
        match self {
            PersistentBuffer::Opencl(b) => b.push(kernel),
        }
    }
}

impl<T> KernelArgument for LocalBuffer<T> {
    open spec fn as_arg(&self) -> KernelArg {
        KernelArg::LocalBytes((self.spec_len() * vstd::layout::size_of::<T>()) as usize)
    }

    open spec fn arg_ok(&self) -> bool {
        self.spec_len() * vstd::layout::size_of::<T>() <= usize::MAX
    }

    fn push(&self, kernel: &mut Kernel) {
        kernel.push_arg(KernelArg::LocalBytes(self.length * std::mem::size_of::<T>()));
    }
}

/// Abstraction that contains everything to run an OpenCL kernel on a GPU.
#[derive(Debug)]
pub struct Program {
    device_name: String,
    kernel_names: Vec<String>,
}

/// A kernel without arguments, for `groups` thread groups of `local` threads each.
pub open spec fn new_kernel_view(
    queue: Option<u64>,
    name: Seq<char>,
    groups: nat,
    local: nat,
) -> KernelView {
    KernelView {
        queue,
        name,
        global_work_size: groups * local,
        local_work_size: local,
        args: Seq::empty(),
    }
}

/// The names in a list of strings.
pub open spec fn names(s: Seq<String>) -> Seq<Seq<char>> {
    s.map_values(|n: String| n@)
}

impl Program {
    /// The name of the device.
    pub closed spec fn spec_device_name(&self) -> Seq<char> {
        self.device_name@
    }

    /// The names of the kernels.
    pub closed spec fn spec_kernel_names(&self) -> Seq<Seq<char>> {
        names(self.kernel_names@)
    }

    /// A program for a device, with the kernels of the given names.
    pub fn new(device_name: String, kernel_names: Vec<String>) -> (p: Self)
        ensures
            p.spec_device_name() == device_name@,
            p.spec_kernel_names() == names(kernel_names@),
    {
        Program { device_name, kernel_names }
    }

    /// Returns the name of the GPU, e.g. "GeForce RTX 3090".
    pub fn device_name(&self) -> (r: &str)
        ensures
            r@ == self.spec_device_name(),
    {
        self.device_name.as_str()
    }

    fn has_kernel(&self, name: &str) -> (r: bool)
        ensures
            r == self.spec_kernel_names().contains(name@),
    {
        let wanted = name.to_owned();
        let mut i: usize = 0;
        while i < self.kernel_names.len()
            invariant
                i <= self.kernel_names@.len(),
                wanted@ == name@,
                forall|j: int| 0 <= j < i ==> self.spec_kernel_names()[j] != name@,
            decreases self.kernel_names@.len() - i,
        {
            if self.kernel_names[i] == wanted {
                assert(self.spec_kernel_names()[i as int] == name@);
                return true;
            }
            i = i + 1;
        }
        false
    }

    fn new_kernel(
        &self,
        queue: Option<u64>,
        name: &str,
        global_work_size: usize,
        local_work_size: usize,
    ) -> (r: GPUResult<Kernel>)
        requires
            self.spec_kernel_names().contains(name@) ==> global_work_size * local_work_size
                <= usize::MAX,
        ensures
            r is Ok <==> self.spec_kernel_names().contains(name@),
            r matches Ok(k) ==> k.wf() && k@ == new_kernel_view(
                queue,
                name@,
                global_work_size as nat,
                local_work_size as nat,
            ),
            r matches Err(e) ==> (e matches GPUError::KernelNotFound(n) && n@ == name@),
    {
        if self.has_kernel(name) {
            let k = Kernel {
                queue,
                name: name.to_owned(),
                global_work_size: global_work_size * local_work_size,
                local_work_size,
                args: Vec::new(),
                num_local_buffers: 0,
            };
            Ok(k)
        } else {
            Err(GPUError::KernelNotFound(name.to_owned()))
        }
    }

    /// Returns a kernel.
    ///
    /// The `global_work_size` does *not* follow the OpenCL definition. It is *not* the total
    /// number of threads. Instead it follows CUDA's definition and is the number of
    /// `local_work_size` sized thread groups. So the total number of threads is
    /// `global_work_size * local_work_size`.
    pub fn create_kernel(
        &self,
        name: &str,
        global_work_size: usize,
        local_work_size: usize,
    ) -> (r: GPUResult<Kernel>)
        requires
            self.spec_kernel_names().contains(name@) ==> global_work_size * local_work_size
                <= usize::MAX,
        ensures
            r is Ok <==> self.spec_kernel_names().contains(name@),
            r matches Ok(k) ==> k.wf() && k@ == new_kernel_view(
                None,
                name@,
                global_work_size as nat,
                local_work_size as nat,
            ),
            r matches Err(e) ==> (e matches GPUError::KernelNotFound(n) && n@ == name@),
    {
        self.new_kernel(None, name, global_work_size, local_work_size)
    }

    /// Create a kernel bound to a specific stream (command queue).
    pub fn create_kernel_on_stream(
        &self,
        stream: &Stream,
        name: &str,
        global_work_size: usize,
        local_work_size: usize,
    ) -> (r: GPUResult<Kernel>)
        requires
            self.spec_kernel_names().contains(name@) ==> global_work_size * local_work_size
                <= usize::MAX,
        ensures
            r is Ok <==> self.spec_kernel_names().contains(name@),
            r matches Ok(k) ==> k.wf() && k@ == new_kernel_view(
                Some(stream.handle),
                name@,
                global_work_size as nat,
                local_work_size as nat,
            ),
            r matches Err(e) ==> (e matches GPUError::KernelNotFound(n) && n@ == name@),
    {
        self.new_kernel(Some(stream.handle), name, global_work_size, local_work_size)
    }

    /// Creates a new buffer that can be used for input/output with the GPU.
    ///
    /// The `length` is the number of elements to create. Returns what the driver is to be asked for.
    pub fn create_buffer<T>(&self, length: usize) -> (r: BufferRequest<T>)
        requires
            length > 0,
            length * vstd::layout::size_of::<T>() <= usize::MAX,
        ensures
            r.spec_len() == length,
            r.spec_bytes() == length * vstd::layout::size_of::<T>(),
    {
        BufferRequest { length, bytes: length * std::mem::size_of::<T>(), _phantom: PhantomData }
    }

    /// Creates a new buffer on the GPU and initializes with the given slice.
    ///
    /// Returns what the driver is to be asked for. The slice is then to be written to the buffer.
    pub fn create_buffer_from_slice<T>(&self, slice: &[T]) -> (r: BufferRequest<T>)
        requires
            slice@.len() * vstd::layout::size_of::<T>() <= usize::MAX,
        ensures
            r.spec_len() == slice@.len(),
            r.spec_bytes() == slice@.len() * vstd::layout::size_of::<T>(),
    {
        let length: usize = slice.len();
        // The underlying buffer is made of bytes, hence we need the number of bytes.
        BufferRequest { length, bytes: length * std::mem::size_of::<T>(), _phantom: PhantomData }
    }

    /// Creates a persistent buffer from a slice, uploading data to GPU.
    ///
    /// `created` is the handle that the driver gave for what [`Program::create_buffer_from_slice`]
    /// asked for, or the status code that it failed with.
    pub fn create_persistent_buffer_from_slice<T>(
        &self,
        request: BufferRequest<T>,
        created: Result<u64, i32>,
    ) -> (r: GPUResult<PersistentBuffer<T>>)
        ensures
            created matches Err(code) ==> r == Err::<PersistentBuffer<T>, GPUError>(
                GPUError::Opencl3(code, None),
            ),
            created matches Ok(h) ==> (r matches Ok(PersistentBuffer::Opencl(b))
                && b.spec_handle() == h && b.spec_len() == request.spec_len()),
    {
        match request.made(created) {
            Ok(b) => Ok(PersistentBuffer::Opencl(b)),
            Err(e) => Err(e),
        }
    }

    /// Puts data from an existing buffer onto the GPU.
    ///
    /// Returns the transfer that the driver is to make.
    pub fn write_from_buffer<T>(&self, buffer: &Buffer<T>, data: &[T]) -> (r: Transfer)
        requires
            data@.len() <= buffer.spec_len(),
            data@.len() * vstd::layout::size_of::<T>() <= usize::MAX,
        ensures
            r == transfer_of::<T>(None, buffer.spec_handle(), data@.len(), true),
    {
        Transfer {
            queue: None,
            handle: buffer.handle,
            bytes: data.len() * std::mem::size_of::<T>(),
            blocking: true,
        }
    }

    /// Puts data from an existing buffer onto the GPU without synchronizing.
    ///
    /// The caller MUST ensure that `data` remains valid until the copy completes.
    pub fn write_from_buffer_async<T>(&self, buffer: &Buffer<T>, data: &[T]) -> (r: Transfer)
        requires
            data@.len() <= buffer.spec_len(),
            data@.len() * vstd::layout::size_of::<T>() <= usize::MAX,
        ensures
            r == transfer_of::<T>(None, buffer.spec_handle(), data@.len(), false),
    {
        Transfer {
            queue: None,
            handle: buffer.handle,
            bytes: data.len() * std::mem::size_of::<T>(),
            blocking: false,
        }
    }

    /// Upload data to GPU buffer on a specific stream (command queue).
    pub fn write_from_buffer_on_stream<T>(
        &self,
        buffer: &Buffer<T>,
        data: &[T],
        stream: &Stream,
    ) -> (r: Transfer)
        requires
            data@.len() <= buffer.spec_len(),
            data@.len() * vstd::layout::size_of::<T>() <= usize::MAX,
        ensures
            r == transfer_of::<T>(Some(stream.handle), buffer.spec_handle(), data@.len(), false),
    {
        Transfer {
            queue: Some(stream.handle),
            handle: buffer.handle,
            bytes: data.len() * std::mem::size_of::<T>(),
            blocking: false,
        }
    }

    /// Reads data from the GPU into an existing buffer.
    pub fn read_into_buffer<T>(&self, buffer: &Buffer<T>, data: &[T]) -> (r: Transfer)
        requires
            data@.len() <= buffer.spec_len(),
            data@.len() * vstd::layout::size_of::<T>() <= usize::MAX,
        ensures
            r == transfer_of::<T>(None, buffer.spec_handle(), data@.len(), true),
    {
        Transfer {
            queue: None,
            handle: buffer.handle,
            bytes: data.len() * std::mem::size_of::<T>(),
            blocking: true,
        }
    }

    /// Create an additional OpenCL command queue for concurrent kernel execution.
    ///
    /// OpenCL command queues are analogous to CUDA streams. Each queue executes
    /// operations in order, but different queues can execute concurrently.
    ///
    /// `created` is the handle of the queue, or the status code that the driver failed with.
    pub fn create_stream(&self, created: Result<u64, i32>) -> (r: GPUResult<Stream>)
        ensures
            created matches Ok(handle) ==> r == Ok::<Stream, GPUError>(Stream { handle }),
            created matches Err(code) ==> r == Err::<Stream, GPUError>(
                GPUError::Opencl3(code, None),
            ),
    {
        match created {
            Ok(handle) => Ok(Stream { handle }),
            Err(code) => Err(GPUError::Opencl3(code, None)),
        }
    }

    /// Run some code in the context of the program.
    ///
    /// It takes the program as a parameter, so that we can use the same function body for every
    /// kind of program. The only difference is the type of the program.
    pub fn run<F, R, E, A>(&self, fun: F, arg: A) -> (r: Result<R, E>) where
        F: FnOnce(&Self, A) -> Result<R, E>,
        E: From<GPUError>,

        requires
            fun.requires((self, arg)),
        ensures
            fun.ensures((self, arg), r),
    {
        fun(self, arg)
    }

    /// Look up a kernel function by name with caching.
    /// On OpenCL, kernels are pre-loaded at program creation, so this just validates the name.
    pub fn get_cached_function(&self, name: &str) -> (r: GPUResult<usize>)
        ensures
            self.spec_kernel_names().contains(name@) ==> r == Ok::<usize, GPUError>(0),
            !self.spec_kernel_names().contains(name@) ==> (r matches Err(
                GPUError::KernelNotFound(n),
            ) && n@ == name@),
    {
        if self.has_kernel(name) {
            Ok(0)
        } else {
            Err(GPUError::KernelNotFound(name.to_owned()))
        }
    }

    /// Push context (no-op on OpenCL: no context stack).
    pub fn push_context(&self) -> (r: GPUResult<()>)
        ensures
            r == Ok::<(), GPUError>(()),
    {
        Ok(())
    }

    /// Pop context (no-op on OpenCL: no context stack).
    pub fn pop_context_public(&self) {
        // OpenCL doesn't use a context stack
    }

    /// Allocate a host memory buffer (OpenCL fallback: no actual pinning).
    ///
    /// Every element is `fill`.
    pub fn create_pinned_host_buffer<T: Copy>(&self, length: usize, fill: T) -> (r: GPUResult<
        PinnedHostBuffer<T>,
    >)
        requires
            length > 0,
        ensures
            r matches Ok(b) && b@ == Seq::new(length as nat, |i: int| fill),
    {
        let mut buffer: Vec<T> = Vec::with_capacity(length);
        let mut i: usize = 0;
        while i < length
            invariant
                i <= length,
                buffer@ == Seq::new(i as nat, |j: int| fill),
            decreases length - i,
        {
            buffer.push(fill);
            i = i + 1;
            assert(buffer@ =~= Seq::new(i as nat, |j: int| fill));
        }
        Ok(PinnedHostBuffer { buffer })
    }

    /// Synchronize the GPU command queue, ensuring all previously enqueued operations complete.
    ///
    /// `finished` is what the driver said when told to finish the queue.
    pub fn synchronize(&self, finished: Result<(), i32>) -> (r: GPUResult<()>)
        ensures
            r == driver_result(finished),
    {
        match finished {
            Ok(()) => Ok(()),
            Err(code) => Err(GPUError::Opencl3(code, None)),
        }
    }
}

} // verus!
