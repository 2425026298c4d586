//! Experts: what the projections of a routed or a shared expert read, in which
//! order several experts run, and when a step is refused.

use crate::compute::config::{smaller_of, ComputeConfig};
use crate::compute::counts::add_counts;
use crate::compute::error::{ComputeError, DiskQuantFormat};
use crate::compute::gemv::{
    check_int4_args, plan_gemv, plan_gemv_tensorwise, GemvPlan, Int4Rows,
};
use crate::compute::lookup::{
    deepseek_v4_fp4_expert_from_quant_block, dense_block_contains_deepseek_fp8_shared_expert,
    find_tensor_by_suffix, first_rank2_tensor_by_role, fp4_expert_logical_values,
    quant_block_contains_deepseek_fp4_expert, shared_expert_tensor_by_marker, tensor_matrix_shape,
    MatrixShape,
};
use crate::compute::quant_block::{
    parse_quant_block, QuantBlockLayout, QuantTensorLayout, TensorRole,
};
use crate::deepseek_v4::{
    validate_fp4_expert, DeepSeekV4Fp4Expert, QUANT_DEEPSEEK_BF16_AUX, QUANT_DEEPSEEK_FP8_E4M3,
};
use vstd::prelude::*;

verus! {

use crate::compute::config::smaller;
use crate::compute::counts::as_count;
use crate::compute::error::{agrees, found_agrees};
use crate::compute::gemv::{gemv_in, gemv_plain, int4_error, is_bf16, GemvView, Int4RowsView};
use crate::compute::lookup::{
    fp4_expert_in, fp4_expert_values, has_fp4_expert, has_fp8_shared_expert,
    is_shared_expert_matrix, matrix_shape,
};
use crate::compute::quant_block::{
    checked_product, law_search_finds_the_first, parsed_block, BlockView, TensorView,
};
use crate::deepseek_v4::Fp4ExpertView;
use vstd::string::StringSliceAdditionalSpecFns;

/// An expert of three matrices: gate and up projection side by side,
/// and the down projection of their product.
#[derive(Clone, Copy, Debug)]
pub struct GatedExpert<'a> {
    pub gate: GemvPlan<'a>,
    pub up: GemvPlan<'a>,
    pub down: GemvPlan<'a>,
    pub intermediate: usize,
    pub down_rows: usize,
    pub values: usize,
}

/// An expert of three matrices, as contents.
pub struct GatedView {
    pub gate: GemvView,
    pub up: GemvView,
    pub down: GemvView,
    pub intermediate: usize,
    pub down_rows: usize,
    pub values: usize,
}

impl<'a> View for GatedExpert<'a> {
    type V = GatedView;

    open spec fn view(&self) -> GatedView {
        GatedView {
            gate: self.gate@,
            up: self.up@,
            down: self.down@,
            intermediate: self.intermediate,
            down_rows: self.down_rows,
            values: self.values,
        }
    }
}

impl GatedView {
    /// The rows that are read lie in the data.
    pub open spec fn wf(self) -> bool {
        self.gate.wf() && self.up.wf() && self.down.wf()
    }
}

/// Number of weights of three matrices.
pub open spec fn gated_values(gate: MatrixShape, up: MatrixShape, down: MatrixShape) -> Result<
    usize,
    ComputeError,
> {
    let g = gate.rows * gate.cols;
    let u = up.rows * up.cols;
    let d = down.rows * down.cols;
    if g > usize::MAX || u > usize::MAX || d > usize::MAX {
        Err(ComputeError::InvalidShape("matrix element count overflow"))
    } else if g + u + d > usize::MAX {
        Err(ComputeError::InvalidShape("expert element count overflow"))
    } else {
        Ok((g + u + d) as usize)
    }
}

fn count_gated_values(gate: MatrixShape, up: MatrixShape, down: MatrixShape) -> (result: Result<
    usize,
    ComputeError,
>)
    ensures
        result == gated_values(gate, up, down),
{
    let g: usize = gate.elements()?;
    let u: usize = up.elements()?;
    let d: usize = down.elements()?;
    match g.checked_add(u) {
        Some(sum) => match sum.checked_add(d) {
            Some(total) => Ok(total),
            None => Err(ComputeError::InvalidShape("expert element count overflow")),
        },
        None => Err(ComputeError::InvalidShape("expert element count overflow")),
    }
}

/// Why three matrices do not make an expert over `hidden` of `hidden_len`
/// values, if they do not.
pub open spec fn gated_shape_error(
    gate: MatrixShape,
    up: MatrixShape,
    down: MatrixShape,
    hidden: int,
    hidden_len: int,
    scratch_len: int,
) -> Option<ComputeError> {
    if gate.cols != hidden || up.cols != hidden {
        Some(ComputeError::InvalidShape("expert gate/up input dim mismatch"))
    } else if gate.rows != up.rows {
        Some(ComputeError::InvalidShape("expert gate/up row mismatch"))
    } else if down.cols != gate.rows {
        Some(ComputeError::InvalidShape("expert down input dim mismatch"))
    } else if down.rows > hidden_len {
        Some(ComputeError::OutputTooSmall { required: down.rows, actual: hidden_len as usize })
    } else if 2 * gate.rows > usize::MAX {
        Some(ComputeError::InvalidShape("expert scratch overflow"))
    } else if scratch_len < 2 * gate.rows {
        Some(
            ComputeError::ScratchTooSmall {
                required: (2 * gate.rows) as usize,
                actual: scratch_len as usize,
            },
        )
    } else {
        None
    }
}

fn check_gated_shape(
    gate: MatrixShape,
    up: MatrixShape,
    down: MatrixShape,
    hidden: usize,
    hidden_len: usize,
    scratch_len: usize,
) -> (error: Option<ComputeError>)
    ensures
        error == gated_shape_error(
            gate,
            up,
            down,
            hidden as int,
            hidden_len as int,
            scratch_len as int,
        ),
{
    if gate.cols != hidden || up.cols != hidden {
        return Some(ComputeError::InvalidShape("expert gate/up input dim mismatch"));
    }
    if gate.rows != up.rows {
        return Some(ComputeError::InvalidShape("expert gate/up row mismatch"));
    }
    if down.cols != gate.rows {
        return Some(ComputeError::InvalidShape("expert down input dim mismatch"));
    }
    if down.rows > hidden_len {
        return Some(ComputeError::OutputTooSmall { required: down.rows, actual: hidden_len });
    }
    let required: usize = match gate.rows.checked_mul(2) {
        Some(required) => required,
        None => return Some(ComputeError::InvalidShape("expert scratch overflow")),
    };
    if scratch_len < required {
        return Some(ComputeError::ScratchTooSmall { required, actual: scratch_len });
    }
    None
}

/// The three products of an expert, once its shapes are known to fit.
pub open spec fn gated_products(
    gate: TensorView,
    up: TensorView,
    down: TensorView,
    shapes: (MatrixShape, MatrixShape, MatrixShape),
    hidden: int,
) -> Result<GatedView, ComputeError> {
    let intermediate = shapes.0.rows as int;
    match gemv_plain(gate, hidden, intermediate) {
        Err(error) => Err(error),
        Ok(gate_plan) => match gemv_plain(up, hidden, intermediate) {
            Err(error) => Err(error),
            Ok(up_plan) => match gemv_plain(down, intermediate, shapes.2.rows as int) {
                Err(error) => Err(error),
                Ok(down_plan) => match gated_values(shapes.0, shapes.1, shapes.2) {
                    Err(error) => Err(error),
                    Ok(values) => Ok(
                        GatedView {
                            gate: gate_plan.0,
                            up: up_plan.0,
                            down: down_plan.0,
                            intermediate: shapes.0.rows,
                            down_rows: shapes.2.rows,
                            values,
                        },
                    ),
                },
            },
        },
    }
}

/// An expert of three matrices over the hidden state.
pub open spec fn gated_of(
    gate: TensorView,
    up: TensorView,
    down: TensorView,
    hidden_len: int,
    scratch_len: int,
    config: ComputeConfig,
) -> Result<GatedView, ComputeError> {
    let hidden = smaller(hidden_len, config.hidden_size as int);
    if hidden == 0 {
        Err(ComputeError::InvalidShape("hidden_states is empty"))
    } else {
        match matrix_shape(gate) {
            Err(error) => Err(error),
            Ok(gate_shape) => match matrix_shape(up) {
                Err(error) => Err(error),
                Ok(up_shape) => match matrix_shape(down) {
                    Err(error) => Err(error),
                    Ok(down_shape) => match gated_shape_error(
                        gate_shape,
                        up_shape,
                        down_shape,
                        hidden,
                        hidden_len,
                        scratch_len,
                    ) {
                        Some(error) => Err(error),
                        None => gated_products(
                            gate,
                            up,
                            down,
                            (gate_shape, up_shape, down_shape),
                            hidden,
                        ),
                    },
                },
            },
        }
    }
}

/// Plans an expert of three matrices over the hidden state.
pub fn plan_gated_expert<'a>(
    gate: QuantTensorLayout<'a>,
    up: QuantTensorLayout<'a>,
    down: QuantTensorLayout<'a>,
    hidden_len: usize,
    scratch_len: usize,
    config: &ComputeConfig,
) -> (result: Result<GatedExpert<'a>, ComputeError>)
    ensures
        agrees(
            result,
            gated_of(gate@, up@, down@, hidden_len as int, scratch_len as int, *config),
        ),
        result matches Ok(plan) ==> plan@.wf(),
{
    let hidden: usize = smaller_of(hidden_len, config.hidden_size);
    if hidden == 0 {
        return Err(ComputeError::InvalidShape("hidden_states is empty"));
    }
    let gate_shape: MatrixShape = tensor_matrix_shape(gate)?;
    let up_shape: MatrixShape = tensor_matrix_shape(up)?;
    let down_shape: MatrixShape = tensor_matrix_shape(down)?;
    match check_gated_shape(gate_shape, up_shape, down_shape, hidden, hidden_len, scratch_len) {
        Some(error) => return Err(error),
        None => {},
    }
    let intermediate: usize = gate_shape.rows;
    let (gate_plan, _gate_values): (GemvPlan<'a>, usize) = plan_gemv_tensorwise(
        gate,
        hidden,
        intermediate,
    )?;
    let (up_plan, _up_values): (GemvPlan<'a>, usize) = plan_gemv_tensorwise(
        up,
        hidden,
        intermediate,
    )?;
    let (down_plan, _down_values): (GemvPlan<'a>, usize) = plan_gemv_tensorwise(
        down,
        intermediate,
        down_shape.rows,
    )?;
    let values: usize = count_gated_values(gate_shape, up_shape, down_shape)?;
    Ok(
        GatedExpert {
            gate: gate_plan,
            up: up_plan,
            down: down_plan,
            intermediate,
            down_rows: down_shape.rows,
            values,
        },
    )
}

/// A single product with the hidden state, of a block that is no known expert.
/// `rows` values replace the first ones of the hidden state.
#[derive(Clone, Copy, Debug)]
pub struct PlainProduct<'a> {
    pub product: GemvPlan<'a>,
    pub rows: usize,
    pub cols: usize,
    pub values: usize,
}

/// A single product with the hidden state, as contents.
pub struct PlainView {
    pub product: GemvView,
    pub rows: usize,
    pub cols: usize,
    pub values: usize,
}

impl<'a> View for PlainProduct<'a> {
    type V = PlainView;

    open spec fn view(&self) -> PlainView {
        PlainView {
            product: self.product@,
            rows: self.rows,
            cols: self.cols,
            values: self.values,
        }
    }
}

/// The roles that a plain product looks for, in this order.
pub open spec fn plain_roles() -> Seq<TensorRole> {
    seq![
        TensorRole::QkvProj,
        TensorRole::QProj,
        TensorRole::KvProj,
        TensorRole::KProj,
        TensorRole::VProj,
        TensorRole::OProj,
        TensorRole::GateProj,
        TensorRole::UpProj,
        TensorRole::DownProj,
        TensorRole::LmHead,
        TensorRole::Unknown,
    ]
}

/// The product with `rows` rows of `cols` weights of a tensor, whatever its
/// shape is where its weights have four bits.
pub open spec fn plain_product(b: BlockView, t: TensorView, rows: int, cols: int) -> Result<
    GemvView,
    ComputeError,
> {
    if t.quant_format == QUANT_DEEPSEEK_FP8_E4M3 || is_bf16(t) {
        match gemv_in(b, t, cols, rows) {
            Err(error) => Err(error),
            Ok(plan) => Ok(plan.0),
        }
    } else if t.quant_format == 4 {
        match int4_error(rows, cols, t.scale_bits, t.zero_point_bits) {
            Some(error) => Err(error),
            None => Ok(
                GemvView::Int4(
                    Int4RowsView {
                        data: t.data,
                        rows: rows as usize,
                        cols: cols as usize,
                        scale_bits: t.scale_bits,
                        zero_point_bits: t.zero_point_bits,
                    },
                ),
            ),
        }
    } else {
        Err(ComputeError::UnsupportedQuantFormat(DiskQuantFormat::Int8Symmetric))
    }
}

/// The plain product of a block with the hidden state: as many rows as the
/// tensor, the hidden state and the scratch have room for.
pub open spec fn plain_in(
    b: BlockView,
    hidden_len: int,
    scratch_len: int,
    config: ComputeConfig,
) -> Result<PlainView, ComputeError> {
    match b.by_roles(plain_roles()) {
        Err(error) => Err(error),
        Ok(t) => {
            let cols = smaller(hidden_len, config.hidden_size as int);
            if cols == 0 {
                Err(ComputeError::InvalidShape("hidden_states is empty"))
            } else {
                match checked_product(t.dims) {
                    None => Err(
                        ComputeError::InvalidQuantBlock("shape element count overflow"),
                    ),
                    Some(elements) => if elements < cols {
                        Err(
                            ComputeError::InvalidShape(
                                "quant tensor has fewer values than hidden size",
                            ),
                        )
                    } else {
                        let rows = smaller(
                            smaller(elements as int / cols, hidden_len),
                            scratch_len,
                        );
                        if rows == 0 {
                            Err(ComputeError::InvalidShape("inferred output rows is zero"))
                        } else {
                            match plain_product(b, t, rows, cols) {
                                Err(error) => Err(error),
                                Ok(product) => Ok(
                                    PlainView {
                                        product,
                                        rows: rows as usize,
                                        cols: cols as usize,
                                        values: elements,
                                    },
                                ),
                            }
                        }
                    },
                }
            }
        },
    }
}

/// Plans the plain product of a block with the hidden state.
pub fn plan_plain_product<'a>(
    layout: &QuantBlockLayout<'a>,
    hidden_len: usize,
    scratch_len: usize,
    config: &ComputeConfig,
) -> (result: Result<PlainProduct<'a>, ComputeError>)
    ensures
        agrees(
            result,
            plain_in(layout@, hidden_len as int, scratch_len as int, *config),
        ),
        result matches Ok(plan) ==> plan@.product.wf(),
{
    let roles: [TensorRole; 11] = [
        TensorRole::QkvProj,
        TensorRole::QProj,
        TensorRole::KvProj,
        TensorRole::KProj,
        TensorRole::VProj,
        TensorRole::OProj,
        TensorRole::GateProj,
        TensorRole::UpProj,
        TensorRole::DownProj,
        TensorRole::LmHead,
        TensorRole::Unknown,
    ];
    proof {
        assert(roles@ =~= plain_roles());
    }
    let tensor = layout.first_tensor_by_roles(&roles)?;
    let cols: usize = smaller_of(hidden_len, config.hidden_size);
    if cols == 0 {
        return Err(ComputeError::InvalidShape("hidden_states is empty"));
    }
    let elements: usize = tensor.shape.element_count()?;
    if elements < cols {
        return Err(ComputeError::InvalidShape("quant tensor has fewer values than hidden size"));
    }
    let rows: usize = smaller_of(smaller_of(elements / cols, hidden_len), scratch_len);
    if rows == 0 {
        return Err(ComputeError::InvalidShape("inferred output rows is zero"));
    }
    let product: GemvPlan<'a> = if tensor.quant_format == QUANT_DEEPSEEK_FP8_E4M3 || (
    tensor.quant_format == QUANT_DEEPSEEK_BF16_AUX && tensor.dtype_original == 11) {
        let (plan, _values): (GemvPlan<'a>, usize) = plan_gemv(layout, tensor, cols, rows)?;
        plan
    } else if tensor.quant_format == 4 {
        match check_int4_args(rows, cols, tensor.scale_bits, tensor.zero_point_bits) {
            Some(error) => return Err(error),
            None => {},
        }
        GemvPlan::Int4(
            Int4Rows {
                data: tensor.data,
                rows,
                cols,
                scale_bits: tensor.scale_bits,
                zero_point_bits: tensor.zero_point_bits,
            },
        )
    } else {
        return Err(ComputeError::UnsupportedQuantFormat(DiskQuantFormat::Int8Symmetric));
    };
    Ok(PlainProduct { product, rows, cols, values: elements })
}

/// An expert of packed four-bit floats, with the number of its weights.
#[derive(Clone, Copy, Debug)]
pub struct PackedExpert<'a> {
    pub expert: DeepSeekV4Fp4Expert<'a>,
    pub values: usize,
}

/// An expert of packed four-bit floats, as contents.
pub struct PackedView {
    pub expert: Fp4ExpertView,
    pub values: usize,
}

impl<'a> View for PackedExpert<'a> {
    type V = PackedView;

    open spec fn view(&self) -> PackedView {
        PackedView { expert: self.expert@, values: self.values }
    }
}

/// The packed expert of a block over the hidden state.
pub open spec fn packed_in(
    b: BlockView,
    hidden_len: int,
    scratch_len: int,
    config: ComputeConfig,
) -> Result<PackedView, ComputeError> {
    match fp4_expert_in(b) {
        Err(error) => Err(error),
        Ok(expert) => {
            let needed = expert.w1.cols + 2 * expert.w1.rows;
            if smaller(hidden_len, config.hidden_size as int) < expert.w1.cols {
                Err(ComputeError::InvalidShape("DeepSeek FP4 expert input dim"))
            } else if expert.w2.rows > hidden_len {
                Err(
                    ComputeError::OutputTooSmall {
                        required: expert.w2.rows,
                        actual: hidden_len as usize,
                    },
                )
            } else if needed > usize::MAX {
                Err(ComputeError::InvalidShape("DeepSeek FP4 expert scratch overflow"))
            } else if scratch_len < needed {
                Err(
                    ComputeError::ScratchTooSmall {
                        required: needed as usize,
                        actual: scratch_len as usize,
                    },
                )
            } else if expert.check(
                expert.w1.cols as int,
                expert.w2.rows as int,
                scratch_len - expert.w1.cols,
            ) is Err {
                Err(ComputeError::InvalidShape("DeepSeek FP4 expert forward"))
            } else {
                match fp4_expert_values(expert) {
                    Err(error) => Err(error),
                    Ok(values) => Ok(PackedView { expert, values }),
                }
            }
        },
    }
}

/// Plans the packed expert of a block over the hidden state.
pub fn plan_packed_expert<'a>(
    layout: &QuantBlockLayout<'a>,
    hidden_len: usize,
    scratch_len: usize,
    config: &ComputeConfig,
) -> (result: Result<PackedExpert<'a>, ComputeError>)
    ensures
        agrees(
            result,
            packed_in(layout@, hidden_len as int, scratch_len as int, *config),
        ),
{
    let expert = deepseek_v4_fp4_expert_from_quant_block(layout)?;
    let hidden: usize = smaller_of(hidden_len, config.hidden_size);
    if hidden < expert.w1.cols {
        return Err(ComputeError::InvalidShape("DeepSeek FP4 expert input dim"));
    }
    if expert.w2.rows > hidden_len {
        return Err(
            ComputeError::OutputTooSmall { required: expert.w2.rows, actual: hidden_len },
        );
    }
    let forward: usize = match expert.w1.rows.checked_mul(2) {
        Some(len) => len,
        None => return Err(ComputeError::InvalidShape("DeepSeek FP4 expert scratch overflow")),
    };
    let required: usize = match expert.w1.cols.checked_add(forward) {
        Some(len) => len,
        None => return Err(ComputeError::InvalidShape("DeepSeek FP4 expert scratch overflow")),
    };
    if scratch_len < required {
        return Err(ComputeError::ScratchTooSmall { required, actual: scratch_len });
    }
    match validate_fp4_expert(
        expert,
        expert.w1.cols,
        expert.w2.rows,
        scratch_len - expert.w1.cols,
    ) {
        Ok(()) => {},
        Err(_) => return Err(ComputeError::InvalidShape("DeepSeek FP4 expert forward")),
    }
    let values: usize = fp4_expert_logical_values(expert)?;
    Ok(PackedExpert { expert, values })
}

/// How a routed expert's block is computed. A plain product runs on the gated
/// hidden state.
#[derive(Clone, Copy, Debug)]
pub enum ExpertPlan<'a> {
    Packed(PackedExpert<'a>),
    Gated(GatedExpert<'a>),
    Plain(PlainProduct<'a>),
}

/// How a routed expert's block is computed, as contents.
pub enum ExpertView {
    Packed(PackedView),
    Gated(GatedView),
    Plain(PlainView),
}

impl<'a> View for ExpertPlan<'a> {
    type V = ExpertView;

    open spec fn view(&self) -> ExpertView {
        match self {
            ExpertPlan::Packed(plan) => ExpertView::Packed(plan@),
            ExpertPlan::Gated(plan) => ExpertView::Gated(plan@),
            ExpertPlan::Plain(plan) => ExpertView::Plain(plan@),
        }
    }
}

impl ExpertView {
    /// The rows that are read lie in the data.
    pub open spec fn wf(self) -> bool {
        match self {
            ExpertView::Packed(_) => true,
            ExpertView::Gated(plan) => plan.wf(),
            ExpertView::Plain(plan) => plan.product.wf(),
        }
    }

    /// Number of weights that count as decoded.
    pub open spec fn values(self) -> usize {
        match self {
            ExpertView::Packed(plan) => plan.values,
            ExpertView::Gated(plan) => plan.values,
            ExpertView::Plain(plan) => plan.values,
        }
    }
}

impl<'a> ExpertPlan<'a> {
    /// Number of weights that count as decoded.
    pub fn values(&self) -> (values: usize)
        ensures
            values == self@.values(),
    {
        match self {
            ExpertPlan::Packed(plan) => plan.values,
            ExpertPlan::Gated(plan) => plan.values,
            ExpertPlan::Plain(plan) => plan.values,
        }
    }
}

/// The first matrix with `role`.
pub open spec fn first_matrix(b: BlockView, role: TensorRole) -> Result<
    Option<TensorView>,
    ComputeError,
> {
    b.first(|t: TensorView| t.role() == role && t.dims.len() == 2)
}

/// How the block of a routed expert is computed.
pub open spec fn expert_in(
    b: BlockView,
    hidden_len: int,
    scratch_len: int,
    config: ComputeConfig,
) -> Result<ExpertView, ComputeError> {
    match has_fp4_expert(b) {
        Err(error) => Err(error),
        Ok(packed) => if packed {
            match packed_in(b, hidden_len, scratch_len, config) {
                Err(error) => Err(error),
                Ok(plan) => Ok(ExpertView::Packed(plan)),
            }
        } else {
            match first_matrix(b, TensorRole::GateProj) {
                Err(error) => Err(error),
                Ok(gate) => match first_matrix(b, TensorRole::UpProj) {
                    Err(error) => Err(error),
                    Ok(up) => match first_matrix(b, TensorRole::DownProj) {
                        Err(error) => Err(error),
                        Ok(down) => match (gate, up, down) {
                            (Some(gate), Some(up), Some(down)) => match gated_of(
                                gate,
                                up,
                                down,
                                hidden_len,
                                scratch_len,
                                config,
                            ) {
                                Err(error) => Err(error),
                                Ok(plan) => Ok(ExpertView::Gated(plan)),
                            },
                            _ => match plain_in(b, hidden_len, scratch_len, config) {
                                Err(error) => Err(error),
                                Ok(plan) => Ok(ExpertView::Plain(plan)),
                            },
                        },
                    },
                },
            }
        },
    }
}

/// How the bytes of a routed expert are computed.
pub open spec fn expert_of(
    expert: Seq<u8>,
    hidden_len: int,
    scratch_len: int,
    config: ComputeConfig,
) -> Result<ExpertView, ComputeError> {
    match parsed_block(expert) {
        Err(error) => Err(error),
        Ok(b) => expert_in(b, hidden_len, scratch_len, config),
    }
}

/// Plans the block of a routed expert over the hidden state.
pub fn plan_expert_block<'a>(
    expert: &'a [u8],
    hidden_len: usize,
    scratch_len: usize,
    config: &ComputeConfig,
) -> (result: Result<ExpertPlan<'a>, ComputeError>)
    ensures
        agrees(
            result,
            expert_of(expert@, hidden_len as int, scratch_len as int, *config),
        ),
        result matches Ok(plan) ==> plan@.wf(),
{
    let layout = parse_quant_block(expert)?;
    let packed: bool = quant_block_contains_deepseek_fp4_expert(&layout)?;
    if packed {
        let plan = plan_packed_expert(&layout, hidden_len, scratch_len, config)?;
        return Ok(ExpertPlan::Packed(plan));
    }
    let gate = first_rank2_tensor_by_role(&layout, TensorRole::GateProj)?;
    let up = first_rank2_tensor_by_role(&layout, TensorRole::UpProj)?;
    let down = first_rank2_tensor_by_role(&layout, TensorRole::DownProj)?;
    match (gate, up, down) {
        (Some(gate), Some(up), Some(down)) => {
            let plan = plan_gated_expert(gate, up, down, hidden_len, scratch_len, config)?;
            Ok(ExpertPlan::Gated(plan))
        },
        _ => {
            let plan = plan_plain_product(&layout, hidden_len, scratch_len, config)?;
            Ok(ExpertPlan::Plain(plan))
        },
    }
}

/// The shared expert of FP8 matrices. The count of each product stands beside
/// it.
#[derive(Clone, Copy, Debug)]
pub struct SharedFp8Expert<'a> {
    pub gate: GemvPlan<'a>,
    pub up: GemvPlan<'a>,
    pub down: GemvPlan<'a>,
    pub gate_values: usize,
    pub up_values: usize,
    pub down_values: usize,
    pub intermediate: usize,
    pub down_rows: usize,
}

/// The shared expert of FP8 matrices, as contents.
pub struct SharedFp8View {
    pub gate: GemvView,
    pub up: GemvView,
    pub down: GemvView,
    pub gate_values: usize,
    pub up_values: usize,
    pub down_values: usize,
    pub intermediate: usize,
    pub down_rows: usize,
}

impl<'a> View for SharedFp8Expert<'a> {
    type V = SharedFp8View;

    open spec fn view(&self) -> SharedFp8View {
        SharedFp8View {
            gate: self.gate@,
            up: self.up@,
            down: self.down@,
            gate_values: self.gate_values,
            up_values: self.up_values,
            down_values: self.down_values,
            intermediate: self.intermediate,
            down_rows: self.down_rows,
        }
    }
}

/// Why three matrices do not make the shared FP8 expert, if they do not.
pub open spec fn shared_shape_error(
    w1: MatrixShape,
    w3: MatrixShape,
    w2: MatrixShape,
    hidden: int,
    hidden_len: int,
    scratch_len: int,
) -> Option<ComputeError> {
    if w1.cols != hidden || w3.cols != hidden {
        Some(ComputeError::InvalidShape("DeepSeek shared expert input dim"))
    } else if w1.rows != w3.rows || w2.cols != w1.rows {
        Some(ComputeError::InvalidShape("DeepSeek shared expert projection shape"))
    } else if w2.rows > hidden_len {
        Some(ComputeError::OutputTooSmall { required: w2.rows, actual: hidden_len as usize })
    } else if hidden + 2 * w1.rows > usize::MAX {
        Some(ComputeError::InvalidShape("DeepSeek shared expert scratch overflow"))
    } else if scratch_len < hidden + 2 * w1.rows {
        Some(
            ComputeError::ScratchTooSmall {
                required: (hidden + 2 * w1.rows) as usize,
                actual: scratch_len as usize,
            },
        )
    } else {
        None
    }
}

fn check_shared_shape(
    w1: MatrixShape,
    w3: MatrixShape,
    w2: MatrixShape,
    hidden: usize,
    hidden_len: usize,
    scratch_len: usize,
) -> (error: Option<ComputeError>)
    ensures
        error == shared_shape_error(
            w1,
            w3,
            w2,
            hidden as int,
            hidden_len as int,
            scratch_len as int,
        ),
{
    if w1.cols != hidden || w3.cols != hidden {
        return Some(ComputeError::InvalidShape("DeepSeek shared expert input dim"));
    }
    if w1.rows != w3.rows || w2.cols != w1.rows {
        return Some(ComputeError::InvalidShape("DeepSeek shared expert projection shape"));
    }
    if w2.rows > hidden_len {
        return Some(ComputeError::OutputTooSmall { required: w2.rows, actual: hidden_len });
    }
    let gates: usize = match w1.rows.checked_mul(2) {
        Some(len) => len,
        None => return Some(ComputeError::InvalidShape("DeepSeek shared expert scratch overflow")),
    };
    let required: usize = match hidden.checked_add(gates) {
        Some(len) => len,
        None => return Some(ComputeError::InvalidShape("DeepSeek shared expert scratch overflow")),
    };
    if scratch_len < required {
        return Some(ComputeError::ScratchTooSmall { required, actual: scratch_len });
    }
    None
}

/// The three products of the shared FP8 expert, once its shapes fit.
pub open spec fn shared_products(
    b: BlockView,
    w1: TensorView,
    w3: TensorView,
    w2: TensorView,
    shapes: (MatrixShape, MatrixShape),
    hidden: int,
    scratch_len: int,
) -> Result<SharedFp8View, ComputeError> {
    let intermediate = shapes.0.rows as int;
    match gemv_in(b, w1, hidden, intermediate) {
        Err(error) => Err(error),
        Ok(gate) => match gemv_in(b, w3, hidden, scratch_len - hidden - intermediate) {
            Err(error) => Err(error),
            Ok(up) => match gemv_in(b, w2, intermediate, shapes.1.rows as int) {
                Err(error) => Err(error),
                Ok(down) => Ok(
                    SharedFp8View {
                        gate: gate.0,
                        up: up.0,
                        down: down.0,
                        gate_values: gate.1,
                        up_values: up.1,
                        down_values: down.1,
                        intermediate: shapes.0.rows,
                        down_rows: shapes.1.rows,
                    },
                ),
            },
        },
    }
}

/// The shared FP8 expert of a block over the hidden state.
pub open spec fn shared_fp8_in(
    b: BlockView,
    hidden_len: int,
    scratch_len: int,
    config: ComputeConfig,
) -> Result<SharedFp8View, ComputeError> {
    let hidden = smaller(hidden_len, config.hidden_size as int);
    match b.only_with_suffix(".w1.weight".spec_bytes()) {
        Err(error) => Err(error),
        Ok(w1) => match b.only_with_suffix(".w3.weight".spec_bytes()) {
            Err(error) => Err(error),
            Ok(w3) => match b.only_with_suffix(".w2.weight".spec_bytes()) {
                Err(error) => Err(error),
                Ok(w2) => match matrix_shape(w1) {
                    Err(error) => Err(error),
                    Ok(w1_shape) => match matrix_shape(w3) {
                        Err(error) => Err(error),
                        Ok(w3_shape) => match matrix_shape(w2) {
                            Err(error) => Err(error),
                            Ok(w2_shape) => match shared_shape_error(
                                w1_shape,
                                w3_shape,
                                w2_shape,
                                hidden,
                                hidden_len,
                                scratch_len,
                            ) {
                                Some(error) => Err(error),
                                None => shared_products(
                                    b,
                                    w1,
                                    w3,
                                    w2,
                                    (w1_shape, w2_shape),
                                    hidden,
                                    scratch_len,
                                ),
                            },
                        },
                    },
                },
            },
        },
    }
}

/// Plans the shared FP8 expert of a block over the hidden state.
pub fn plan_shared_fp8_expert<'a>(
    layout: &QuantBlockLayout<'a>,
    hidden_len: usize,
    scratch_len: usize,
    config: &ComputeConfig,
) -> (result: Result<SharedFp8Expert<'a>, ComputeError>)
    ensures
        agrees(
            result,
            shared_fp8_in(layout@, hidden_len as int, scratch_len as int, *config),
        ),
        result matches Ok(plan) ==> plan.gate@.wf() && plan.up@.wf() && plan.down@.wf(),
{
    let w1 = find_tensor_by_suffix(layout, ".w1.weight")?;
    let w3 = find_tensor_by_suffix(layout, ".w3.weight")?;
    let w2 = find_tensor_by_suffix(layout, ".w2.weight")?;
    let w1_shape: MatrixShape = tensor_matrix_shape(w1)?;
    let w3_shape: MatrixShape = tensor_matrix_shape(w3)?;
    let w2_shape: MatrixShape = tensor_matrix_shape(w2)?;
    let hidden: usize = smaller_of(hidden_len, config.hidden_size);
    match check_shared_shape(w1_shape, w3_shape, w2_shape, hidden, hidden_len, scratch_len) {
        Some(error) => return Err(error),
        None => {},
    }
    let intermediate: usize = w1_shape.rows;
    let (gate, gate_values): (GemvPlan<'a>, usize) = plan_gemv(layout, w1, hidden, intermediate)?;
    let (up, up_values): (GemvPlan<'a>, usize) = plan_gemv(
        layout,
        w3,
        hidden,
        scratch_len - hidden - intermediate,
    )?;
    let (down, down_values): (GemvPlan<'a>, usize) = plan_gemv(
        layout,
        w2,
        intermediate,
        w2_shape.rows,
    )?;
    Ok(
        SharedFp8Expert {
            gate,
            up,
            down,
            gate_values,
            up_values,
            down_values,
            intermediate,
            down_rows: w2_shape.rows,
        },
    )
}

/// How the shared expert of a layer is computed.
#[derive(Clone, Copy, Debug)]
pub enum SharedPlan<'a> {
    Fp8(SharedFp8Expert<'a>),
    Gated(GatedExpert<'a>),
}

/// How the shared expert of a layer is computed, as contents.
pub enum SharedView {
    Fp8(SharedFp8View),
    Gated(GatedView),
}

impl<'a> View for SharedPlan<'a> {
    type V = SharedView;

    open spec fn view(&self) -> SharedView {
        match self {
            SharedPlan::Fp8(plan) => SharedView::Fp8(plan@),
            SharedPlan::Gated(plan) => SharedView::Gated(plan@),
        }
    }
}

impl SharedView {
    /// The rows that are read lie in the data.
    pub open spec fn wf(self) -> bool {
        match self {
            SharedView::Fp8(plan) => plan.gate.wf() && plan.up.wf() && plan.down.wf(),
            SharedView::Gated(plan) => plan.wf(),
        }
    }

    /// Number of weights that are gone through.
    pub open spec fn values(self) -> int {
        match self {
            SharedView::Fp8(plan) => plan.gate_values + plan.up_values + plan.down_values,
            SharedView::Gated(plan) => plan.values as int,
        }
    }
}

impl<'a> SharedPlan<'a> {
    /// Number of weights that are gone through. `None` where they are too many to
    /// count.
    pub fn values(&self) -> (count: Option<usize>)
        ensures
            count == as_count(self@.values()),
    {
        match self {
            SharedPlan::Fp8(plan) => add_counts(
                add_counts(Some(plan.gate_values), Some(plan.up_values)),
                Some(plan.down_values),
            ),
            SharedPlan::Gated(plan) => Some(plan.values),
        }
    }
}

/// The matrix of the shared expert that `marker` asks for.
pub open spec fn shared_matrix(b: BlockView, marker: Seq<u8>) -> Result<
    Option<TensorView>,
    ComputeError,
> {
    b.first(|t: TensorView| is_shared_expert_matrix(t, marker))
}

/// The shared expert of a block, where it has a whole one.
pub open spec fn shared_in(
    b: BlockView,
    hidden_len: int,
    scratch_len: int,
    config: ComputeConfig,
) -> Result<Option<SharedView>, ComputeError> {
    match has_fp8_shared_expert(b) {
        Err(error) => Err(error),
        Ok(fp8) => if fp8 {
            match shared_fp8_in(b, hidden_len, scratch_len, config) {
                Err(error) => Err(error),
                Ok(plan) => Ok(Some(SharedView::Fp8(plan))),
            }
        } else {
            match shared_matrix(b, "gate_proj".spec_bytes()) {
                Err(error) => Err(error),
                Ok(gate) => match shared_matrix(b, "up_proj".spec_bytes()) {
                    Err(error) => Err(error),
                    Ok(up) => match shared_matrix(b, "down_proj".spec_bytes()) {
                        Err(error) => Err(error),
                        Ok(down) => match (gate, up, down) {
                            (Some(gate), Some(up), Some(down)) => match gated_of(
                                gate,
                                up,
                                down,
                                hidden_len,
                                scratch_len,
                                config,
                            ) {
                                Err(error) => Err(error),
                                Ok(plan) => Ok(Some(SharedView::Gated(plan))),
                            },
                            _ => Ok(None),
                        },
                    },
                },
            }
        },
    }
}

/// The shared expert in the bytes of a dense block.
pub open spec fn shared_of(
    dense: Seq<u8>,
    hidden_len: int,
    scratch_len: int,
    config: ComputeConfig,
) -> Result<Option<SharedView>, ComputeError> {
    match parsed_block(dense) {
        Err(error) => Err(error),
        Ok(b) => shared_in(b, hidden_len, scratch_len, config),
    }
}

/// Plans the shared expert of a dense block. Without a whole one nothing is
/// applied.
pub fn plan_shared_expert<'a>(
    dense: &'a [u8],
    hidden_len: usize,
    scratch_len: usize,
    config: &ComputeConfig,
) -> (result: Result<Option<SharedPlan<'a>>, ComputeError>)
    ensures
        found_agrees(
            result,
            shared_of(dense@, hidden_len as int, scratch_len as int, *config),
        ),
        result matches Ok(Some(plan)) ==> plan@.wf(),
{
    let layout = parse_quant_block(dense)?;
    let fp8: bool = dense_block_contains_deepseek_fp8_shared_expert(&layout)?;
    if fp8 {
        let plan = plan_shared_fp8_expert(&layout, hidden_len, scratch_len, config)?;
        return Ok(Some(SharedPlan::Fp8(plan)));
    }
    let gate = shared_expert_tensor_by_marker(&layout, "gate_proj")?;
    let up = shared_expert_tensor_by_marker(&layout, "up_proj")?;
    let down = shared_expert_tensor_by_marker(&layout, "down_proj")?;
    match (gate, up, down) {
        (Some(gate), Some(up), Some(down)) => {
            let plan = plan_gated_expert(gate, up, down, hidden_len, scratch_len, config)?;
            Ok(Some(SharedPlan::Gated(plan)))
        },
        _ => Ok(None),
    }
}

/// The products of a gated expert are those of its three matrices: of the first
/// and the second with the input, each giving as many values as they have rows,
/// and of the third with those values.
pub proof fn law_gated_products_are_their_matrices(
    gate: TensorView,
    up: TensorView,
    down: TensorView,
    hidden_len: int,
    scratch_len: int,
    config: ComputeConfig,
)
    ensures
        gated_of(gate, up, down, hidden_len, scratch_len, config) matches Ok(plan) ==> {
            &&& gate.dims.len() == 2 && up.dims.len() == 2 && down.dims.len() == 2
            &&& gate.dims[1] == up.dims[1]
            &&& gate.dims[1] <= hidden_len && gate.dims[1] <= config.hidden_size
            &&& gate.dims[0] == up.dims[0] == down.dims[1]
            &&& down.dims[0] <= hidden_len
            &&& 2 * gate.dims[0] <= scratch_len
            &&& plan.intermediate == gate.dims[0]
            &&& plan.down_rows == down.dims[0]
            &&& gemv_plain(gate, gate.dims[1] as int, gate.dims[0] as int) matches Ok(g) && g.0
                == plan.gate
            &&& gemv_plain(up, up.dims[1] as int, up.dims[0] as int) matches Ok(u) && u.0 == plan.up
            &&& gemv_plain(down, down.dims[1] as int, down.dims[0] as int) matches Ok(d) && d.0
                == plan.down
            &&& plan.values == gate.dims[0] * gate.dims[1] + up.dims[0] * up.dims[1] + down.dims[0]
                * down.dims[1]
        },
{
}

/// An expert that is not packed, with a gate, a way up and a way down, is made of
/// the first matrix of each of these roles; with one of them missing it is one
/// matrix alone; and a packed one is never either.
pub proof fn law_experts_go_by_their_roles(
    b: BlockView,
    hidden_len: int,
    scratch_len: int,
    config: ComputeConfig,
)
    ensures
        expert_in(b, hidden_len, scratch_len, config) matches Ok(ExpertView::Gated(plan)) ==> {
            &&& first_matrix(b, TensorRole::GateProj) matches Ok(Some(gate)) && (first_matrix(
                b,
                TensorRole::UpProj,
            ) matches Ok(Some(up)) && (first_matrix(b, TensorRole::DownProj) matches Ok(Some(down))
                && gate.role() == TensorRole::GateProj && up.role() == TensorRole::UpProj
                && down.role() == TensorRole::DownProj && gated_of(
                gate,
                up,
                down,
                hidden_len,
                scratch_len,
                config,
            ) == Ok::<GatedView, ComputeError>(plan)))
            &&& has_fp4_expert(b) == Ok::<bool, ComputeError>(false)
        },
        expert_in(b, hidden_len, scratch_len, config) matches Ok(ExpertView::Packed(plan)) ==> {
            &&& has_fp4_expert(b) == Ok::<bool, ComputeError>(true)
            &&& fp4_expert_in(b) == Ok::<Fp4ExpertView, ComputeError>(plan.expert)
            &&& plan.expert.w1.cols <= hidden_len
            &&& plan.expert.w2.rows <= hidden_len
            &&& plan.expert.w1.cols + 2 * plan.expert.w1.rows <= scratch_len
        },
        expert_in(b, hidden_len, scratch_len, config) matches Ok(ExpertView::Plain(plan)) ==> {
            &&& has_fp4_expert(b) == Ok::<bool, ComputeError>(false)
            &&& first_matrix(b, TensorRole::GateProj) == Ok::<Option<TensorView>, ComputeError>(
                None,
            ) || first_matrix(b, TensorRole::UpProj) == Ok::<Option<TensorView>, ComputeError>(None)
                || first_matrix(b, TensorRole::DownProj) == Ok::<Option<TensorView>, ComputeError>(
                None,
            )
        },
{
    law_search_finds_the_first(
        b,
        |t: TensorView| t.role() == TensorRole::GateProj && t.dims.len() == 2,
    );
    law_search_finds_the_first(
        b,
        |t: TensorView| t.role() == TensorRole::UpProj && t.dims.len() == 2,
    );
    law_search_finds_the_first(
        b,
        |t: TensorView| t.role() == TensorRole::DownProj && t.dims.len() == 2,
    );
}

/// A matrix alone gives as many rows as its values fill, with as many columns as
/// a token has values, but no more than fit into the token or the scratch.
pub proof fn law_plain_rows_fit(
    b: BlockView,
    hidden_len: int,
    scratch_len: int,
    config: ComputeConfig,
)
    requires
        0 <= hidden_len,
        0 <= scratch_len,
        hidden_len <= usize::MAX,
    ensures
        plain_in(b, hidden_len, scratch_len, config) matches Ok(plan) ==> {
            &&& b.by_roles(plain_roles()) matches Ok(t) && checked_product(t.dims) == Some(
                plan.values,
            )
            &&& plan.cols <= hidden_len && plan.cols <= config.hidden_size
            &&& plan.cols == hidden_len || plan.cols == config.hidden_size
            &&& 0 < plan.rows <= hidden_len && plan.rows <= scratch_len
            &&& plan.rows * plan.cols <= plan.values
            &&& plan.rows == hidden_len || plan.rows == scratch_len || (plan.rows + 1) * plan.cols
                > plan.values
        },
{
    if plain_in(b, hidden_len, scratch_len, config) is Ok {
        let plan = plain_in(b, hidden_len, scratch_len, config)->Ok_0;
        let cols = plan.cols as int;
        let most = plan.values as int / cols;
        vstd::arithmetic::div_mod::lemma_fundamental_div_mod(plan.values as int, cols);
        vstd::arithmetic::div_mod::lemma_mod_bound(plan.values as int, cols);
        assert(plan.rows * cols <= most * cols) by (nonlinear_arith)
            requires
                plan.rows <= most,
                cols > 0,
        ;
        assert(cols * most == most * cols) by (nonlinear_arith);
        assert((most + 1) * cols == most * cols + cols) by (nonlinear_arith);
    }
}

/// A shared expert in FP8 is made of the three tensors that are named for it:
/// gating from `w1`, the way up from `w3`, the way down from `w2`.
pub proof fn law_shared_matrices_go_by_name(
    b: BlockView,
    hidden_len: int,
    scratch_len: int,
    config: ComputeConfig,
)
    ensures
        shared_fp8_in(b, hidden_len, scratch_len, config) matches Ok(plan) ==> {
            &&& b.only_with_suffix(".w1.weight".spec_bytes()) matches Ok(w1) && (
            b.only_with_suffix(".w3.weight".spec_bytes()) matches Ok(w3) && (b.only_with_suffix(
                ".w2.weight".spec_bytes(),
            ) matches Ok(w2) && {
                &&& w1.dims.len() == 2 && w3.dims.len() == 2 && w2.dims.len() == 2
                &&& w1.dims[0] == w3.dims[0] == w2.dims[1]
                &&& w1.dims[1] == w3.dims[1]
                &&& w2.dims[0] <= hidden_len
                &&& w1.dims[1] + 2 * w1.dims[0] <= scratch_len
                &&& plan.intermediate == w1.dims[0]
                &&& plan.down_rows == w2.dims[0]
                &&& gemv_in(b, w1, w1.dims[1] as int, w1.dims[0] as int) == Ok::<
                    (GemvView, usize),
                    ComputeError,
                >((plan.gate, plan.gate_values))
                &&& gemv_in(
                    b,
                    w3,
                    w3.dims[1] as int,
                    scratch_len - w1.dims[1] - w1.dims[0],
                ) == Ok::<(GemvView, usize), ComputeError>((plan.up, plan.up_values))
                &&& gemv_in(b, w2, w2.dims[1] as int, w2.dims[0] as int) == Ok::<
                    (GemvView, usize),
                    ComputeError,
                >((plan.down, plan.down_values))
            }))
        },
{
}

/// A shared expert is one in FP8 exactly where the block has its weights and its
/// scales in that form; otherwise it is made of the first matrices of that role
/// that are named a gate, a way up and a way down, and missing one of them there
/// is none.
pub proof fn law_shared_experts_go_by_their_form(
    b: BlockView,
    hidden_len: int,
    scratch_len: int,
    config: ComputeConfig,
)
    ensures
        shared_in(b, hidden_len, scratch_len, config) matches Ok(Some(SharedView::Fp8(plan))) ==> (
        has_fp8_shared_expert(b) == Ok::<bool, ComputeError>(true) && shared_fp8_in(
            b,
            hidden_len,
            scratch_len,
            config,
        ) == Ok::<SharedFp8View, ComputeError>(plan)),
        shared_in(b, hidden_len, scratch_len, config) matches Ok(Some(SharedView::Gated(plan))) ==> {
            &&& has_fp8_shared_expert(b) == Ok::<bool, ComputeError>(false)
            &&& shared_matrix(b, "gate_proj".spec_bytes()) matches Ok(Some(gate)) && (shared_matrix(
                b,
                "up_proj".spec_bytes(),
            ) matches Ok(Some(up)) && (shared_matrix(
                b,
                "down_proj".spec_bytes(),
            ) matches Ok(Some(down)) && gated_of(
                gate,
                up,
                down,
                hidden_len,
                scratch_len,
                config,
            ) == Ok::<GatedView, ComputeError>(plan)))
        },
        shared_in(b, hidden_len, scratch_len, config) matches Ok(None) ==> has_fp8_shared_expert(b)
            == Ok::<bool, ComputeError>(false),
{
}

} // verus!
