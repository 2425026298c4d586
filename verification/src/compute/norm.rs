//! What a weighted norm reads.

use crate::compute::error::{ComputeError, DiskQuantFormat};
use crate::compute::lookup::norm_tensor_by_marker;
use crate::compute::quant_block::{QuantBlockLayout, QuantTensorLayout};
use crate::deepseek_v4::QUANT_DEEPSEEK_BF16_AUX;
use vstd::prelude::*;

verus! {

use crate::compute::error::{agrees, found_agrees};
use crate::compute::gemv::is_bf16;
use crate::compute::lookup::is_marked_norm;
use crate::compute::quant_block::{BlockView, TensorView};
use vstd::string::StringSliceAdditionalSpecFns;

/// The weights of a norm: BF16 numbers, or four-bit weights with one scale and
/// zero point. A norm over nothing reads no weights.
#[derive(Clone, Copy, Debug)]
pub enum NormPlan<'a> {
    Nothing,
    Bf16(&'a [u8]),
    Int4 { data: &'a [u8], scale_bits: u32, zero_point_bits: u32 },
}

/// The weights of a norm, as contents.
pub enum NormView {
    Nothing,
    Bf16(Seq<u8>),
    Int4 { data: Seq<u8>, scale_bits: u32, zero_point_bits: u32 },
}

impl<'a> View for NormPlan<'a> {
    type V = NormView;

    open spec fn view(&self) -> NormView {
        match self {
            NormPlan::Nothing => NormView::Nothing,
            NormPlan::Bf16(data) => NormView::Bf16(data@),
            NormPlan::Int4 { data, scale_bits, zero_point_bits } => NormView::Int4 {
                data: data@,
                scale_bits: *scale_bits,
                zero_point_bits: *zero_point_bits,
            },
        }
    }
}

/// What a norm over `len` values reads of its tensor. BF16 weights are there
/// for all of them.
pub open spec fn norm_of(norm: TensorView, len: int, output_len: int) -> Result<
    NormView,
    ComputeError,
> {
    if output_len < len {
        Err(ComputeError::OutputTooSmall { required: len as usize, actual: output_len as usize })
    } else if norm.dims.len() != 1 || norm.dims[0] < len {
        Err(ComputeError::InvalidShape("final norm shape mismatch"))
    } else if len == 0 {
        Ok(NormView::Nothing)
    } else if is_bf16(norm) {
        if 2 * len > norm.data.len() {
            Err(ComputeError::InvalidShape("BF16 tensor value out of range"))
        } else {
            Ok(NormView::Bf16(norm.data))
        }
    } else if norm.quant_format == 4 {
        Ok(
            NormView::Int4 {
                data: norm.data,
                scale_bits: norm.scale_bits,
                zero_point_bits: norm.zero_point_bits,
            },
        )
    } else {
        Err(ComputeError::UnsupportedQuantFormat(DiskQuantFormat::Int8Symmetric))
    }
}

/// Plans a norm over `len` values.
pub fn plan_weighted_rms_norm<'a>(norm: QuantTensorLayout<'a>, len: usize, output_len: usize) -> (
result: Result<NormPlan<'a>, ComputeError>)
    ensures
        agrees(result, norm_of(norm@, len as int, output_len as int)),
{
    if output_len < len {
        return Err(ComputeError::OutputTooSmall { required: len, actual: output_len });
    }
    if norm.shape.rank() != 1 {
        return Err(ComputeError::InvalidShape("final norm shape mismatch"));
    }
    match norm.shape.dim(0) {
        Ok(dim) => if dim < len {
            return Err(ComputeError::InvalidShape("final norm shape mismatch"));
        },
        Err(error) => return Err(error),
    }
    if len == 0 {
        return Ok(NormPlan::Nothing);
    }
    if norm.quant_format == QUANT_DEEPSEEK_BF16_AUX && norm.dtype_original == 11 {
        if norm.data.len() / 2 < len {
            return Err(ComputeError::InvalidShape("BF16 tensor value out of range"));
        }
        return Ok(NormPlan::Bf16(norm.data));
    }
    if norm.quant_format == 4 {
        return Ok(
            NormPlan::Int4 {
                data: norm.data,
                scale_bits: norm.scale_bits,
                zero_point_bits: norm.zero_point_bits,
            },
        );
    }
    Err(ComputeError::UnsupportedQuantFormat(DiskQuantFormat::Int8Symmetric))
}

/// The first norm that `marker` asks for.
pub open spec fn marked_norm(b: BlockView, marker: Seq<u8>) -> Result<
    Option<TensorView>,
    ComputeError,
> {
    b.first(|t: TensorView| is_marked_norm(t, marker))
}

/// What the norm that `marker` asks for reads, where the block has one.
pub open spec fn norm_in(b: BlockView, marker: Seq<u8>, len: int, output_len: int) -> Result<
    Option<NormView>,
    ComputeError,
> {
    match marked_norm(b, marker) {
        Err(error) => Err(error),
        Ok(None) => Ok(None),
        Ok(Some(norm)) => match norm_of(norm, len, output_len) {
            Err(error) => Err(error),
            Ok(plan) => Ok(Some(plan)),
        },
    }
}

/// Plans the norm that `marker` asks for, where the block has one. Without one
/// the values are normed without weights.
pub fn plan_marked_norm<'a>(
    layout: &QuantBlockLayout<'a>,
    marker: &str,
    len: usize,
    output_len: usize,
) -> (result: Result<Option<NormPlan<'a>>, ComputeError>)
    ensures
        found_agrees(
            result,
            norm_in(layout@, marker.spec_bytes(), len as int, output_len as int),
        ),
{
    let found = norm_tensor_by_marker(layout, marker)?;
    match found {
        None => Ok(None),
        Some(norm) => {
            let plan = plan_weighted_rms_norm(norm, len, output_len)?;
            Ok(Some(plan))
        },
    }
}

/// A norm takes its weights from its tensor, which has one for each value, and
/// its output has room for all of them.
pub proof fn law_norms_weigh_every_value(norm: TensorView, len: int, output_len: int)
    requires
        0 <= len,
    ensures
        norm_of(norm, len, output_len) matches Ok(plan) ==> {
            &&& len <= output_len
            &&& norm.dims.len() == 1
            &&& len <= norm.dims[0]
            &&& plan is Nothing == (len == 0)
            &&& plan matches NormView::Bf16(data) ==> data == norm.data && 2 * len <= data.len()
                && is_bf16(norm)
            &&& plan matches NormView::Int4 { data, scale_bits, zero_point_bits } ==> data
                == norm.data && scale_bits == norm.scale_bits && zero_point_bits
                == norm.zero_point_bits && norm.quant_format == 4
        },
{
}

/// A norm by its mark is the first vector of norms whose name matches it.
pub proof fn law_norms_go_by_their_mark(b: BlockView, marker: Seq<u8>, len: int, output_len: int)
    ensures
        norm_in(b, marker, len, output_len) matches Ok(Some(plan)) ==> exists|i: int|
            0 <= i < b.count() && (#[trigger] b.tensor(i) matches Ok(t) && is_marked_norm(t, marker)
                && norm_of(t, len, output_len) == Ok::<NormView, ComputeError>(plan))
                && b.passes_over(i, |t: TensorView| is_marked_norm(t, marker)),
        norm_in(b, marker, len, output_len) matches Ok(None) ==> b.passes_over(
            b.count() as int,
            |t: TensorView| is_marked_norm(t, marker),
        ),
{
    crate::compute::quant_block::law_search_finds_the_first(
        b,
        |t: TensorView| is_marked_norm(t, marker),
    );
}

} // verus!
