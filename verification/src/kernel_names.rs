//! The names of the kernels.
//!
//! A program holds the kernels for a field and for a curve. Their names start with the name of the
//! field or of the curve.

use vstd::prelude::*;

use crate::session::KernelId;

verus! {

/// What a kernel works on.
#[derive(Copy, Clone, Debug, PartialEq, Eq, Structural)]
pub enum Family {
    /// Elements of a field.
    Field,
    /// Points of a curve.
    Curve,
    /// Plain words.
    Words,
}

impl KernelId {
    /// What the kernel works on.
    pub open spec fn spec_family(self) -> Family {
        match self {
            KernelId::U32FillZero | KernelId::U32CopyBuffer => Family::Words,
            KernelId::FixVar
            | KernelId::FixVarIndexed
            | KernelId::FixVarToScalar
            | KernelId::LinearCombine
            | KernelId::LinearCombineAccumulate
            | KernelId::WitnessPolySequential
            | KernelId::WitnessPolyBatch
            | KernelId::WitnessPolyBatchPhase1
            | KernelId::WitnessCarryPropagate
            | KernelId::WitnessPolyBatchPhase3
            | KernelId::ScalePoly
            | KernelId::AddPoly
            | KernelId::SubPoly
            | KernelId::EvalUnivariateBatch
            | KernelId::ToScalarBytes
            | KernelId::ToScalarBytesOffset => Family::Field,
            _ => Family::Curve,
        }
    }

    /// The name without that of the field or curve.
    pub open spec fn spec_base_name(self) -> Seq<char> {
        match self {
            KernelId::FixVar => "fix_var"@,
            KernelId::FixVarIndexed => "fix_var_indexed"@,
            KernelId::FixVarToScalar => "fix_var_to_scalar"@,
            KernelId::LinearCombine => "linear_combine"@,
            KernelId::LinearCombineAccumulate => "linear_combine_accumulate"@,
            KernelId::WitnessPolySequential => "witness_poly_sequential"@,
            KernelId::WitnessPolyBatch => "witness_poly_batch"@,
            KernelId::WitnessPolyBatchPhase1 => "witness_poly_batch_phase1"@,
            KernelId::WitnessCarryPropagate => "witness_carry_propagate"@,
            KernelId::WitnessPolyBatchPhase3 => "witness_poly_batch_phase3"@,
            KernelId::ScalePoly => "scale_poly"@,
            KernelId::AddPoly => "add_poly"@,
            KernelId::SubPoly => "sub_poly"@,
            KernelId::EvalUnivariateBatch => "eval_univariate_batch"@,
            KernelId::ToScalarBytes => "to_scalar_bytes"@,
            KernelId::ToScalarBytesOffset => "to_scalar_bytes_offset"@,
            KernelId::PreprocessSignedDigits => "preprocess_signed_digits"@,
            KernelId::MultiexpSigned => "multiexp_signed"@,
            KernelId::DecomposeToPairs => "decompose_to_pairs"@,
            KernelId::CountBuckets => "count_buckets"@,
            KernelId::PrefixSum => "prefix_sum"@,
            KernelId::ScatterToSorted => "scatter_to_sorted"@,
            KernelId::AccumulateSortedBuckets => "accumulate_sorted_buckets"@,
            KernelId::AccumulateAllSortedBuckets => "accumulate_all_sorted_buckets"@,
            KernelId::AccumulateChunked => "accumulate_chunked"@,
            KernelId::ReducePartialBuckets => "reduce_partial_buckets"@,
            KernelId::ReduceBucketsChunked => "reduce_buckets_chunked"@,
            KernelId::CombineChunksToWindows => "combine_chunks_to_windows"@,
            KernelId::ReduceWindows => "reduce_windows"@,
            KernelId::CopyAtOffset => "copy_at_offset"@,
            KernelId::BatchScalarMul => "batch_scalar_mul"@,
            KernelId::U32FillZero => "u32_fill_zero"@,
            KernelId::U32CopyBuffer => "u32_copy_buffer"@,
        }
    }

    /// The name in a program for a field and a curve.
    pub open spec fn spec_kernel_name(self, field: Seq<char>, curve: Seq<char>) -> Seq<char> {
        match self.spec_family() {
            Family::Field => field + "_"@ + self.spec_base_name(),
            Family::Curve => curve + "_"@ + self.spec_base_name(),
            Family::Words => self.spec_base_name(),
        }
    }

    /// What the kernel works on.
    pub fn family(&self) -> (r: Family)
        ensures
            r == self.spec_family(),
    {
        match self {
            KernelId::U32FillZero | KernelId::U32CopyBuffer => Family::Words,
            KernelId::FixVar
            | KernelId::FixVarIndexed
            | KernelId::FixVarToScalar
            | KernelId::LinearCombine
            | KernelId::LinearCombineAccumulate
            | KernelId::WitnessPolySequential
            | KernelId::WitnessPolyBatch
            | KernelId::WitnessPolyBatchPhase1
            | KernelId::WitnessCarryPropagate
            | KernelId::WitnessPolyBatchPhase3
            | KernelId::ScalePoly
            | KernelId::AddPoly
            | KernelId::SubPoly
            | KernelId::EvalUnivariateBatch
            | KernelId::ToScalarBytes
            | KernelId::ToScalarBytesOffset => Family::Field,
            _ => Family::Curve,
        }
    }

    fn base_name(&self) -> (r: &'static str)
        ensures
            r@ == self.spec_base_name(),
    {
        match self {
            KernelId::FixVar => "fix_var",
            KernelId::FixVarIndexed => "fix_var_indexed",
            KernelId::FixVarToScalar => "fix_var_to_scalar",
            KernelId::LinearCombine => "linear_combine",
            KernelId::LinearCombineAccumulate => "linear_combine_accumulate",
            KernelId::WitnessPolySequential => "witness_poly_sequential",
            KernelId::WitnessPolyBatch => "witness_poly_batch",
            KernelId::WitnessPolyBatchPhase1 => "witness_poly_batch_phase1",
            KernelId::WitnessCarryPropagate => "witness_carry_propagate",
            KernelId::WitnessPolyBatchPhase3 => "witness_poly_batch_phase3",
            KernelId::ScalePoly => "scale_poly",
            KernelId::AddPoly => "add_poly",
            KernelId::SubPoly => "sub_poly",
            KernelId::EvalUnivariateBatch => "eval_univariate_batch",
            KernelId::ToScalarBytes => "to_scalar_bytes",
            KernelId::ToScalarBytesOffset => "to_scalar_bytes_offset",
            KernelId::PreprocessSignedDigits => "preprocess_signed_digits",
            KernelId::MultiexpSigned => "multiexp_signed",
            KernelId::DecomposeToPairs => "decompose_to_pairs",
            KernelId::CountBuckets => "count_buckets",
            KernelId::PrefixSum => "prefix_sum",
            KernelId::ScatterToSorted => "scatter_to_sorted",
            KernelId::AccumulateSortedBuckets => "accumulate_sorted_buckets",
            KernelId::AccumulateAllSortedBuckets => "accumulate_all_sorted_buckets",
            KernelId::AccumulateChunked => "accumulate_chunked",
            KernelId::ReducePartialBuckets => "reduce_partial_buckets",
            KernelId::ReduceBucketsChunked => "reduce_buckets_chunked",
            KernelId::CombineChunksToWindows => "combine_chunks_to_windows",
            KernelId::ReduceWindows => "reduce_windows",
            KernelId::CopyAtOffset => "copy_at_offset",
            KernelId::BatchScalarMul => "batch_scalar_mul",
            KernelId::U32FillZero => "u32_fill_zero",
            KernelId::U32CopyBuffer => "u32_copy_buffer",
        }
    }

    /// The name in a program for a field and a curve.
    pub fn kernel_name(&self, field: &str, curve: &str) -> (r: String)
        ensures
            r@ == self.spec_kernel_name(field@, curve@),
    {
        let base = self.base_name();
        match self.family() {
            Family::Field => String::from_str(field).concat("_").concat(base),
            Family::Curve => String::from_str(curve).concat("_").concat(base),
            Family::Words => String::from_str(base),
        }
    }
}

} // verus!
