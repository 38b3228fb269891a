//! Multiexponentiation and polynomial operations for KZG style commitments on a GPU.
//!
//! The kernels themselves run on the device. What runs on the host is planning: which buffers
//! exist and how long they are, which kernels are launched with which arguments, how the work is
//! split into windows, buckets and chunks, and what is made of the data that comes back. This
//! crate holds that part, together with the field and group arithmetic it rests on. A plan is a
//! [`session::Session`], a list of device commands. Whoever owns the device executes it.
//!
//! What kernels do to the buffers of a device is said in [`field_device`] and [`msm_device`]. The
//! modules whose names end in `_laws` say what the operations are for, and prove that the plans do it
//! on such a device.

pub mod arith;
pub mod session;
pub mod kernel_names;
pub mod group;
pub mod limbs;
pub mod field;
pub mod curve;
pub mod error;
pub mod opencl;
pub mod program;
pub mod multiexp;
pub mod dispatch;
pub mod memory;
pub mod single_multiexp;
pub mod booth;
pub mod sorted_msm;
pub mod sorted_multiexp;
pub mod sorted_sum;
pub mod multiexp_kernel;
pub mod poly_ops;
pub mod reference;
pub mod gpu_buffer;
pub mod fused_msm;
pub mod witness;
pub mod field_device;
pub mod msm_device;
pub mod combined_ops;
pub mod fused_commit;
pub mod witness_commit;
pub mod batch_commit;
pub mod commit_laws;
pub mod fused_open;
pub mod open_laws;
pub mod scalar_mul;
pub mod multiexp_laws;
pub mod sorted_laws;
pub mod msm_laws;
pub mod fused_laws;
pub mod commitment_laws;
pub mod opening_laws;
pub mod session_laws;
pub mod polynomial_laws;
pub mod sizing_laws;
pub mod transfer_laws;

pub use combined_ops::{CombinedPolyOps, FixVarsResult};
pub use curve::{G1AffineM, G2AffineM, GpuAffine};
pub use dispatch::build_dispatch_tables;
pub use error::{EcError, EcResult};
pub use fused_commit::{FixVarsAndCommitResult, FusedPolyCommit};
pub use fused_open::{FusedOpenResult, Phase3Input};
pub use gpu_buffer::{BufferMetadata, GpuBufferCache, GpuBufferId};
pub use multiexp::{compute_sorted_msm_params, compute_work_units, SortedMsmParams, CHUNK_SIZE};
pub use multiexp_kernel::MultiexpKernel;
pub use poly_ops::{PolyOpsKernel, SinglePolyOpsKernel};
pub use single_multiexp::SingleMultiexpKernel;
