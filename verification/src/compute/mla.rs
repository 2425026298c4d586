//! Latent attention: the dimensions, buffers and projections of one position,
//! and of several positions at once.

use crate::compute::config::{deepseek_rope_for_layer, ComputeConfig, YarnRope};
use crate::compute::counts::{add_counts, count_rows};
use crate::compute::error::ComputeError;
use crate::compute::gemv::{
    plan_bf16_rows, plan_fp8_rows, plan_fp8_rows_multi, plan_gemv, Fp8Rows, GemvPlan,
};
use crate::compute::kv_cache::KVCache;
use crate::compute::lookup::{
    dims2, fp8_scale_for_weight, tensor_by_role_with_cols, tensor_matrix_shape, MatrixShape,
};
use crate::compute::norm::{plan_marked_norm, NormPlan};
use crate::compute::quant_block::{QuantBlockLayout, QuantTensorLayout, TensorRole};
use crate::compute::values::attention_sink_values;
use crate::deepseek_v4::QUANT_DEEPSEEK_FP8_E4M3;
use vstd::prelude::*;

verus! {

use crate::compute::compressor::ratio_of;
use crate::compute::config::deepseek_v4_rope_scaling;
use crate::compute::counts::as_count;
use crate::compute::error::{agrees, found_agrees};
use crate::compute::gemv::{
    bf16_part, fp8_multi, fp8_part, gemv_agrees, gemv_in, law_several_inputs_share_rows,
    lemma_part_is_whole, Fp8RowsView, GemvView,
};
use crate::compute::kv_cache::{
    ascend, latents_written, law_later_latents_are_not_seen, law_latent_is_found, KvView,
};
use crate::compute::lookup::{fp8_scale_of, has_role_and_cols, matrix_shape};
use crate::compute::norm::{norm_in, NormView};
use crate::compute::quant_block::{BlockView, TensorView};
use crate::compute::values::attention_sink;
use vstd::string::StringSliceAdditionalSpecFns;

/// Raw positions that a position attends to.
pub const DEEPSEEK_V4_SLIDING_WINDOW_SIZE: usize = 128;

/// Lengths of latent attention.
#[derive(Clone, Copy, Debug, PartialEq, Eq, Structural)]
pub struct MlaDims {
    pub head_dim: usize,
    pub q_full_len: usize,
    pub group_in: usize,
    pub o_mid_len: usize,
}

/// The lengths that a configuration calls for.
pub open spec fn mla_dims(config: ComputeConfig) -> Result<MlaDims, ComputeError> {
    let head_dim = config.qk_nope_head_dim + config.qk_rope_head_dim;
    let q_full_len = config.num_attention_heads * head_dim;
    let o_mid_len = config.o_groups * config.o_lora_rank;
    if head_dim > usize::MAX {
        Err(ComputeError::InvalidShape("MLA head dim overflow"))
    } else if q_full_len > usize::MAX {
        Err(ComputeError::InvalidShape("MLA q size overflow"))
    } else if config.o_groups == 0 || config.o_lora_rank == 0 || q_full_len
        % config.o_groups as int != 0 {
        Err(ComputeError::InvalidShape("MLA o_groups configuration"))
    } else if o_mid_len > usize::MAX {
        Err(ComputeError::InvalidShape("MLA o mid size overflow"))
    } else {
        Ok(
            MlaDims {
                head_dim: head_dim as usize,
                q_full_len: q_full_len as usize,
                group_in: (q_full_len / config.o_groups as int) as usize,
                o_mid_len: o_mid_len as usize,
            },
        )
    }
}

/// The lengths that a configuration calls for.
pub fn plan_mla_dims(config: &ComputeConfig) -> (result: Result<MlaDims, ComputeError>)
    ensures
        result == mla_dims(*config),
{
    let head_dim: usize = match config.qk_nope_head_dim.checked_add(config.qk_rope_head_dim) {
        Some(dim) => dim,
        None => return Err(ComputeError::InvalidShape("MLA head dim overflow")),
    };
    let q_full_len: usize = match config.num_attention_heads.checked_mul(head_dim) {
        Some(len) => len,
        None => return Err(ComputeError::InvalidShape("MLA q size overflow")),
    };
    if config.o_groups == 0 || config.o_lora_rank == 0 || q_full_len % config.o_groups != 0 {
        return Err(ComputeError::InvalidShape("MLA o_groups configuration"));
    }
    let o_mid_len: usize = match config.o_groups.checked_mul(config.o_lora_rank) {
        Some(len) => len,
        None => return Err(ComputeError::InvalidShape("MLA o mid size overflow")),
    };
    Ok(MlaDims { head_dim, q_full_len, group_in: q_full_len / config.o_groups, o_mid_len })
}

/// Where the buffers of latent attention begin in the scratch: low-rank
/// queries, queries, latent vector, attention output, and the middle of the
/// output projection.
#[derive(Clone, Copy, Debug, PartialEq, Eq, Structural)]
pub struct MlaBuffers {
    pub q_at: usize,
    pub kv_at: usize,
    pub attn_out_at: usize,
    pub o_mid_at: usize,
    pub required: usize,
}

/// The buffers of latent attention, one after the other.
pub open spec fn mla_buffers(config: ComputeConfig, dims: MlaDims, scratch_len: int) -> Result<
    MlaBuffers,
    ComputeError,
> {
    let q_at = config.q_lora_rank;
    let kv_at = q_at + dims.q_full_len;
    let attn_out_at = kv_at + dims.head_dim;
    let o_mid_at = attn_out_at + dims.q_full_len;
    let required = o_mid_at + dims.o_mid_len;
    if required > usize::MAX {
        Err(ComputeError::InvalidShape("MLA scratch size overflow"))
    } else if scratch_len < required {
        Err(
            ComputeError::ScratchTooSmall {
                required: required as usize,
                actual: scratch_len as usize,
            },
        )
    } else {
        Ok(
            MlaBuffers {
                q_at,
                kv_at: kv_at as usize,
                attn_out_at: attn_out_at as usize,
                o_mid_at: o_mid_at as usize,
                required: required as usize,
            },
        )
    }
}

fn plan_mla_buffers(config: &ComputeConfig, dims: MlaDims, scratch_len: usize) -> (result: Result<
    MlaBuffers,
    ComputeError,
>)
    ensures
        result == mla_buffers(*config, dims, scratch_len as int),
{
    let q_at: usize = config.q_lora_rank;
    let kv_at: usize = match q_at.checked_add(dims.q_full_len) {
        Some(at) => at,
        None => return Err(ComputeError::InvalidShape("MLA scratch size overflow")),
    };
    let attn_out_at: usize = match kv_at.checked_add(dims.head_dim) {
        Some(at) => at,
        None => return Err(ComputeError::InvalidShape("MLA scratch size overflow")),
    };
    let o_mid_at: usize = match attn_out_at.checked_add(dims.q_full_len) {
        Some(at) => at,
        None => return Err(ComputeError::InvalidShape("MLA scratch size overflow")),
    };
    let required: usize = match o_mid_at.checked_add(dims.o_mid_len) {
        Some(at) => at,
        None => return Err(ComputeError::InvalidShape("MLA scratch size overflow")),
    };
    if scratch_len < required {
        return Err(ComputeError::ScratchTooSmall { required, actual: scratch_len });
    }
    Ok(MlaBuffers { q_at, kv_at, attn_out_at, o_mid_at, required })
}

/// The first matrix with `role` and `cols` columns.
pub open spec fn matrix_in(b: BlockView, role: TensorRole, cols: usize) -> Result<
    Option<TensorView>,
    ComputeError,
> {
    b.first(|t: TensorView| has_role_and_cols(t, role, cols))
}

/// The matrix with `role` and `cols` columns; `missing` where there is none.
pub open spec fn needed_matrix(
    b: BlockView,
    role: TensorRole,
    cols: usize,
    missing: &'static str,
) -> Result<TensorView, ComputeError> {
    match matrix_in(b, role, cols) {
        Err(error) => Err(error),
        Ok(None) => Err(ComputeError::InvalidShape(missing)),
        Ok(Some(t)) => Ok(t),
    }
}

/// The product with the matrix with `role` and `cols` columns.
pub open spec fn needed_projection(
    b: BlockView,
    role: TensorRole,
    cols: usize,
    output_len: int,
    missing: &'static str,
) -> Result<(GemvView, usize), ComputeError> {
    match needed_matrix(b, role, cols, missing) {
        Err(error) => Err(error),
        Ok(t) => gemv_in(b, t, cols as int, output_len),
    }
}

fn find_matrix<'a>(
    layout: &QuantBlockLayout<'a>,
    role: TensorRole,
    cols: usize,
    missing: &'static str,
) -> (result: Result<QuantTensorLayout<'a>, ComputeError>)
    ensures
        agrees(result, needed_matrix(layout@, role, cols, missing)),
{
    match tensor_by_role_with_cols(layout, role, cols) {
        Err(error) => Err(error),
        Ok(None) => Err(ComputeError::InvalidShape(missing)),
        Ok(Some(tensor)) => Ok(tensor),
    }
}

fn plan_projection<'a>(
    layout: &QuantBlockLayout<'a>,
    role: TensorRole,
    cols: usize,
    output_len: usize,
    missing: &'static str,
) -> (result: Result<(GemvPlan<'a>, usize), ComputeError>)
    ensures
        gemv_agrees(
            result,
            needed_projection(layout@, role, cols, output_len as int, missing),
        ),
{
    match find_matrix(layout, role, cols, missing) {
        Err(error) => Err(error),
        Ok(tensor) => plan_gemv(layout, tensor, cols, output_len),
    }
}

/// What the first half of latent attention at one position reads: from the
/// hidden state to queries and the latent vector. The counts are numbers of
/// weights.
pub struct MlaInputs<'a> {
    pub dims: MlaDims,
    pub buffers: MlaBuffers,
    pub wq_a: (GemvPlan<'a>, usize),
    pub q_norm: Option<NormPlan<'a>>,
    pub wq_b: (GemvPlan<'a>, usize),
    pub wkv: (GemvPlan<'a>, usize),
    pub kv_norm: Option<NormPlan<'a>>,
    pub sink: Option<Vec<u32>>,
    pub rope_theta_bits: u32,
    pub yarn: Option<YarnRope>,
}

/// What the first half of latent attention reads, as contents.
#[verifier::ext_equal]
pub struct MlaInputsView {
    pub dims: MlaDims,
    pub buffers: MlaBuffers,
    pub wq_a: (GemvView, usize),
    pub q_norm: Option<NormView>,
    pub wq_b: (GemvView, usize),
    pub wkv: (GemvView, usize),
    pub kv_norm: Option<NormView>,
    pub sink: Option<Seq<u32>>,
    pub rope_theta_bits: u32,
    pub yarn: Option<YarnRope>,
}

/// The contents of an optional norm.
pub open spec fn norm_view(norm: Option<NormPlan<'_>>) -> Option<NormView> {
    match norm {
        Some(plan) => Some(plan@),
        None => None,
    }
}

/// The contents of an optional list.
pub open spec fn list_view(list: Option<Vec<u32>>) -> Option<Seq<u32>> {
    match list {
        Some(values) => Some(values@),
        None => None,
    }
}

impl<'a> View for MlaInputs<'a> {
    type V = MlaInputsView;

    open spec fn view(&self) -> MlaInputsView {
        MlaInputsView {
            dims: self.dims,
            buffers: self.buffers,
            wq_a: (self.wq_a.0@, self.wq_a.1),
            q_norm: norm_view(self.q_norm),
            wq_b: (self.wq_b.0@, self.wq_b.1),
            wkv: (self.wkv.0@, self.wkv.1),
            kv_norm: norm_view(self.kv_norm),
            sink: list_view(self.sink),
            rope_theta_bits: self.rope_theta_bits,
            yarn: self.yarn,
        }
    }
}

/// Rope base and scaling of a layer.
pub open spec fn layer_rope(layer_index: int) -> (u32, Option<YarnRope>) {
    if ratio_of(layer_index) > 0 {
        (0x481c4000u32, Some(deepseek_v4_rope_scaling()))
    } else {
        (0x461c4000u32, None)
    }
}

/// Can a cache take the latent vectors, and the slot of this position?
pub open spec fn mla_cache_error<T>(
    kv: KvView<T>,
    dims: MlaDims,
    layer_index: int,
    token_pos: int,
) -> Option<ComputeError> {
    if kv.num_kv_heads != 1 || kv.head_dim < dims.head_dim {
        Some(ComputeError::InvalidShape("MLA KV cache layout mismatch"))
    } else {
        kv.slot_error(layer_index, token_pos)
    }
}

/// The first half of latent attention at one position. Errors come in the
/// order in which the steps are taken.
pub open spec fn mla_inputs<T>(
    b: BlockView,
    config: ComputeConfig,
    kv: KvView<T>,
    layer_index: int,
    token_pos: int,
    scratch_len: int,
) -> Result<MlaInputsView, ComputeError> {
    let hidden = config.hidden_size;
    let rank = config.q_lora_rank;
    match mla_dims(config) {
        Err(error) => Err(error),
        Ok(dims) => match mla_buffers(config, dims, scratch_len) {
            Err(error) => Err(error),
            Ok(buffers) => match needed_projection(
                b,
                TensorRole::QProj,
                hidden,
                rank as int,
                "MLA wq_a missing",
            ) {
                Err(error) => Err(error),
                Ok(wq_a) => match norm_in(
                    b,
                    "q_a_layernorm".spec_bytes(),
                    rank as int,
                    rank as int,
                ) {
                    Err(error) => Err(error),
                    Ok(q_norm) => match needed_projection(
                        b,
                        TensorRole::QProj,
                        rank,
                        dims.q_full_len as int,
                        "MLA wq_b missing",
                    ) {
                        Err(error) => Err(error),
                        Ok(wq_b) => match needed_projection(
                            b,
                            TensorRole::KvProj,
                            hidden,
                            dims.head_dim as int,
                            "MLA wkv missing",
                        ) {
                            Err(error) => Err(error),
                            Ok(wkv) => match norm_in(
                                b,
                                "kv_a_layernorm".spec_bytes(),
                                dims.head_dim as int,
                                dims.head_dim as int,
                            ) {
                                Err(error) => Err(error),
                                Ok(kv_norm) => match mla_cache_error(
                                    kv,
                                    dims,
                                    layer_index,
                                    token_pos,
                                ) {
                                    Some(error) => Err(error),
                                    None => match attention_sink(b, config.num_attention_heads) {
                                        Err(error) => Err(error),
                                        Ok(sink) => Ok(
                                            MlaInputsView {
                                                dims,
                                                buffers,
                                                wq_a,
                                                q_norm,
                                                wq_b,
                                                wkv,
                                                kv_norm,
                                                sink,
                                                rope_theta_bits: layer_rope(layer_index).0,
                                                yarn: layer_rope(layer_index).1,
                                            },
                                        ),
                                    },
                                },
                            },
                        },
                    },
                },
            },
        },
    }
}

fn check_mla_cache<T: Copy>(
    kv_cache: &KVCache<'_, T>,
    dims: MlaDims,
    layer_index: usize,
    token_pos: usize,
) -> (error: Option<ComputeError>)
    ensures
        error == mla_cache_error(kv_cache@, dims, layer_index as int, token_pos as int),
{
    let (heads, head_dim): (usize, usize) = kv_cache.head_layout();
    if heads != 1 || head_dim < dims.head_dim {
        return Some(ComputeError::InvalidShape("MLA KV cache layout mismatch"));
    }
    kv_cache.check_slot(layer_index, token_pos)
}

/// Plans the first half of latent attention at one position.
pub fn plan_mla_inputs<'a, T: Copy>(
    layout: &QuantBlockLayout<'a>,
    config: &ComputeConfig,
    kv_cache: &KVCache<'_, T>,
    layer_index: usize,
    token_pos: usize,
    scratch_len: usize,
) -> (result: Result<MlaInputs<'a>, ComputeError>)
    ensures
        agrees(
            result,
            mla_inputs(
                layout@,
                *config,
                kv_cache@,
                layer_index as int,
                token_pos as int,
                scratch_len as int,
            ),
        ),
        result matches Ok(plan) ==> plan.wq_a.0@.wf() && plan.wq_b.0@.wf() && plan.wkv.0@.wf(),
{
    let hidden: usize = config.hidden_size;
    let rank: usize = config.q_lora_rank;
    let dims: MlaDims = match plan_mla_dims(config) {
        Ok(dims) => dims,
        Err(error) => return Err(error),
    };
    let buffers: MlaBuffers = match plan_mla_buffers(config, dims, scratch_len) {
        Ok(buffers) => buffers,
        Err(error) => return Err(error),
    };
    let wq_a = match plan_projection(layout, TensorRole::QProj, hidden, rank, "MLA wq_a missing") {
        Ok(plan) => plan,
        Err(error) => return Err(error),
    };
    let q_norm = match plan_marked_norm(layout, "q_a_layernorm", rank, rank) {
        Ok(plan) => plan,
        Err(error) => return Err(error),
    };
    let wq_b = match plan_projection(
        layout,
        TensorRole::QProj,
        rank,
        dims.q_full_len,
        "MLA wq_b missing",
    ) {
        Ok(plan) => plan,
        Err(error) => return Err(error),
    };
    let wkv = match plan_projection(
        layout,
        TensorRole::KvProj,
        hidden,
        dims.head_dim,
        "MLA wkv missing",
    ) {
        Ok(plan) => plan,
        Err(error) => return Err(error),
    };
    let kv_norm = match plan_marked_norm(layout, "kv_a_layernorm", dims.head_dim, dims.head_dim) {
        Ok(plan) => plan,
        Err(error) => return Err(error),
    };
    match check_mla_cache(kv_cache, dims, layer_index, token_pos) {
        Some(error) => return Err(error),
        None => {},
    }
    let sink = match attention_sink_values(layout, config.num_attention_heads) {
        Ok(sink) => sink,
        Err(error) => return Err(error),
    };
    let (rope_theta_bits, yarn): (u32, Option<YarnRope>) = deepseek_rope_for_layer(layer_index);
    Ok(
        MlaInputs {
            dims,
            buffers,
            wq_a,
            q_norm,
            wq_b,
            wkv,
            kv_norm,
            sink,
            rope_theta_bits,
            yarn,
        },
    )
}

/// The raw positions that a position attends to, itself the last.
pub open spec fn window_start_of(token_pos: int) -> int {
    if token_pos + 1 > DEEPSEEK_V4_SLIDING_WINDOW_SIZE {
        token_pos + 1 - DEEPSEEK_V4_SLIDING_WINDOW_SIZE
    } else {
        0
    }
}

/// The raw positions, first and past the last, that a position attends to.
pub fn sliding_window(token_pos: usize) -> (window: (usize, usize))
    requires
        token_pos < usize::MAX,
    ensures
        window.0 == window_start_of(token_pos as int),
        window.1 == token_pos + 1,
        window.0 < window.1,
        window.1 - window.0 <= DEEPSEEK_V4_SLIDING_WINDOW_SIZE,
{
    let context: usize = token_pos + 1;
    if context > DEEPSEEK_V4_SLIDING_WINDOW_SIZE {
        (context - DEEPSEEK_V4_SLIDING_WINDOW_SIZE, context)
    } else {
        (0, context)
    }
}

/// The window always ends with the position itself and never reaches past it,
/// and positions of a short context see all that came before.
pub proof fn law_window_is_causal(token_pos: int)
    requires
        token_pos >= 0,
    ensures
        0 <= window_start_of(token_pos) <= token_pos,
        token_pos < DEEPSEEK_V4_SLIDING_WINDOW_SIZE ==> window_start_of(token_pos) == 0,
{
}

/// One group of the output projection: its rows of the first matrix.
pub open spec fn group_plan(
    wo_a: TensorView,
    scale: Option<TensorView>,
    o_lora: int,
    group_in: int,
    group: int,
) -> Result<GemvView, ComputeError> {
    match scale {
        Some(s) => match fp8_part(
            wo_a,
            s,
            group * o_lora,
            (group + 1) * o_lora,
            group_in,
            o_lora,
        ) {
            Err(error) => Err(error),
            Ok(rows) => Ok(GemvView::Fp8(rows)),
        },
        None => match bf16_part(wo_a, group * o_lora, (group + 1) * o_lora, group_in, o_lora) {
            Err(error) => Err(error),
            Ok(rows) => Ok(GemvView::Bf16(rows)),
        },
    }
}

/// The first `n` groups of the output projection.
pub open spec fn group_plans(
    wo_a: TensorView,
    scale: Option<TensorView>,
    o_lora: int,
    group_in: int,
    n: int,
) -> Result<Seq<GemvView>, ComputeError>
    decreases n,
{
    if n <= 0 {
        Ok(seq![])
    } else {
        match group_plans(wo_a, scale, o_lora, group_in, n - 1) {
            Err(error) => Err(error),
            Ok(before) => match group_plan(wo_a, scale, o_lora, group_in, n - 1) {
                Err(error) => Err(error),
                Ok(plan) => Ok(before.push(plan)),
            },
        }
    }
}

/// What the output projection of latent attention reads: one product per
/// group, then one over all groups.
pub struct MlaOutputs<'a> {
    pub groups: Vec<GemvPlan<'a>>,
    pub wo_b: (GemvPlan<'a>, usize),
}

/// What the output projection reads, as contents.
#[verifier::ext_equal]
pub struct MlaOutputsView {
    pub groups: Seq<GemvView>,
    pub wo_b: (GemvView, usize),
}

impl<'a> View for MlaOutputs<'a> {
    type V = MlaOutputsView;

    open spec fn view(&self) -> MlaOutputsView {
        MlaOutputsView {
            groups: plan_views(self.groups@),
            wo_b: (self.wo_b.0@, self.wo_b.1),
        }
    }
}

/// The scale of the first output matrix, where it is FP8.
pub open spec fn wo_a_scale(b: BlockView, wo_a: TensorView) -> Result<
    Option<TensorView>,
    ComputeError,
> {
    if wo_a.quant_format == QUANT_DEEPSEEK_FP8_E4M3 {
        match fp8_scale_of(b, wo_a) {
            Err(error) => Err(error),
            Ok(scale) => Ok(Some(scale)),
        }
    } else {
        Ok(None)
    }
}

/// The output projection of latent attention.
pub open spec fn mla_outputs(
    b: BlockView,
    config: ComputeConfig,
    dims: MlaDims,
    hidden_len: int,
) -> Result<MlaOutputsView, ComputeError> {
    match needed_matrix(b, TensorRole::OProj, dims.group_in, "MLA wo_a missing") {
        Err(error) => Err(error),
        Ok(wo_a) => match matrix_shape(wo_a) {
            Err(error) => Err(error),
            Ok(shape) => if shape.rows != dims.o_mid_len {
                Err(ComputeError::InvalidShape("MLA wo_a rows mismatch"))
            } else {
                match wo_a_scale(b, wo_a) {
                    Err(error) => Err(error),
                    Ok(scale) => match group_plans(
                        wo_a,
                        scale,
                        config.o_lora_rank as int,
                        dims.group_in as int,
                        config.o_groups as int,
                    ) {
                        Err(error) => Err(error),
                        Ok(groups) => match needed_projection(
                            b,
                            TensorRole::OProj,
                            dims.o_mid_len,
                            hidden_len,
                            "MLA wo_b missing",
                        ) {
                            Err(error) => Err(error),
                            Ok(wo_b) => Ok(
                                MlaOutputsView {
                                    groups,
                                    wo_b,
                                },
                            ),
                        },
                    },
                }
            },
        },
    }
}

spec fn opt_view(tensor: Option<QuantTensorLayout<'_>>) -> Option<TensorView> {
    match tensor {
        Some(t) => Some(t@),
        None => None,
    }
}

proof fn lemma_group_rows(groups: int, o_lora: int, group: int)
    requires
        0 <= group < groups,
        o_lora > 0,
    ensures
        0 <= group * o_lora,
        (group + 1) * o_lora == group * o_lora + o_lora,
        (group + 1) * o_lora <= groups * o_lora,
{
    assert(0 <= group * o_lora) by (nonlinear_arith)
        requires
            0 <= group,
            o_lora > 0,
    ;
    assert((group + 1) * o_lora == group * o_lora + o_lora) by (nonlinear_arith);
    assert((group + 1) * o_lora <= groups * o_lora) by (nonlinear_arith)
        requires
            group + 1 <= groups,
            o_lora > 0,
    ;
}

proof fn lemma_group_error(
    wo_a: TensorView,
    scale: Option<TensorView>,
    o_lora: int,
    group_in: int,
    k: int,
    n: int,
)
    requires
        0 <= k <= n,
        group_plans(wo_a, scale, o_lora, group_in, k) is Err,
    ensures
        group_plans(wo_a, scale, o_lora, group_in, n) == group_plans(
            wo_a,
            scale,
            o_lora,
            group_in,
            k,
        ),
    decreases n,
{
    if k < n {
        lemma_group_error(wo_a, scale, o_lora, group_in, k, n - 1);
    }
}

/// The contents of a list of plans.
pub open spec fn plan_views(plans: Seq<GemvPlan<'_>>) -> Seq<GemvView> {
    plans.map_values(|plan: GemvPlan<'_>| plan@)
}

fn plan_groups<'a>(
    wo_a: QuantTensorLayout<'a>,
    scale: Option<QuantTensorLayout<'a>>,
    o_lora: usize,
    group_in: usize,
    count: usize,
) -> (result: Result<Vec<GemvPlan<'a>>, ComputeError>)
    requires
        o_lora > 0,
        count * o_lora <= usize::MAX,
    ensures
        match result {
            Ok(plans) => group_plans(
                wo_a@,
                opt_view(scale),
                o_lora as int,
                group_in as int,
                count as int,
            ) == Ok::<Seq<GemvView>, ComputeError>(plan_views(plans@)) && forall|i: int|
                0 <= i < plans@.len() ==> (#[trigger] plans@[i])@.wf(),
            Err(error) => group_plans(
                wo_a@,
                opt_view(scale),
                o_lora as int,
                group_in as int,
                count as int,
            ) == Err::<Seq<GemvView>, ComputeError>(error),
        },
{
    let mut plans: Vec<GemvPlan<'a>> = Vec::new();
    let mut group: usize = 0;
    proof {
        assert(plan_views(plans@) =~= seq![]);
    }
    while group < count
        invariant
            group <= count,
            o_lora > 0,
            count * o_lora <= usize::MAX,
            group_plans(
                wo_a@,
                opt_view(scale),
                o_lora as int,
                group_in as int,
                group as int,
            ) == Ok::<Seq<GemvView>, ComputeError>(plan_views(plans@)),
            forall|i: int| 0 <= i < plans@.len() ==> (#[trigger] plans@[i])@.wf(),
        decreases count - group,
    {
        proof {
            lemma_group_rows(count as int, o_lora as int, group as int);
        }
        let row_start: usize = group * o_lora;
        let row_end: usize = row_start + o_lora;
        let ghost before = plans@;
        let planned: Result<GemvPlan<'a>, ComputeError> = match scale {
            Some(s) => match plan_fp8_rows(wo_a, s, row_start, row_end, group_in, o_lora) {
                Ok(rows) => Ok(GemvPlan::Fp8(rows)),
                Err(error) => Err(error),
            },
            None => match plan_bf16_rows(wo_a, row_start, row_end, group_in, o_lora) {
                Ok(rows) => Ok(GemvPlan::Bf16(rows)),
                Err(error) => Err(error),
            },
        };
        match planned {
            Ok(plan) => {
                plans.push(plan);
                proof {
                    assert(plan_views(plans@) =~= plan_views(before).push(plan@));
                }
            },
            Err(error) => {
                proof {
                    lemma_group_error(
                        wo_a@,
                        opt_view(scale),
                        o_lora as int,
                        group_in as int,
                        group + 1,
                        count as int,
                    );
                }
                return Err(error);
            },
        }
        group += 1;
    }
    Ok(plans)
}

/// Plans the output projection of latent attention.
pub fn plan_mla_outputs<'a>(
    layout: &QuantBlockLayout<'a>,
    config: &ComputeConfig,
    dims: MlaDims,
    hidden_len: usize,
) -> (result: Result<MlaOutputs<'a>, ComputeError>)
    requires
        mla_dims(*config) == Ok::<MlaDims, ComputeError>(dims),
    ensures
        agrees(result, mla_outputs(layout@, *config, dims, hidden_len as int)),
        result matches Ok(plan) ==> plan.wo_b.0@.wf() && forall|i: int|
            0 <= i < plan.groups@.len() ==> (#[trigger] plan.groups@[i])@.wf(),
{
    let wo_a = match find_matrix(layout, TensorRole::OProj, dims.group_in, "MLA wo_a missing") {
        Ok(tensor) => tensor,
        Err(error) => return Err(error),
    };
    let shape: MatrixShape = match tensor_matrix_shape(wo_a) {
        Ok(shape) => shape,
        Err(error) => return Err(error),
    };
    if shape.rows != dims.o_mid_len {
        return Err(ComputeError::InvalidShape("MLA wo_a rows mismatch"));
    }
    let scale: Option<QuantTensorLayout<'a>> = if wo_a.quant_format == QUANT_DEEPSEEK_FP8_E4M3 {
        match fp8_scale_for_weight(layout, wo_a) {
            Ok(scale) => Some(scale),
            Err(error) => return Err(error),
        }
    } else {
        None
    };
    let groups = match plan_groups(
        wo_a,
        scale,
        config.o_lora_rank,
        dims.group_in,
        config.o_groups,
    ) {
        Ok(plans) => plans,
        Err(error) => return Err(error),
    };
    let wo_b = match plan_projection(
        layout,
        TensorRole::OProj,
        dims.o_mid_len,
        hidden_len,
        "MLA wo_b missing",
    ) {
        Ok(plan) => plan,
        Err(error) => return Err(error),
    };
    Ok(MlaOutputs { groups, wo_b })
}

/// `n` buffers of the same length.
pub open spec fn same_lens(len: usize, n: int) -> Seq<usize> {
    Seq::new(n as nat, |i: int| len)
}

fn repeated(len: usize, n: usize) -> (lens: Vec<usize>)
    ensures
        lens@ == same_lens(len, n as int),
{
    let mut lens: Vec<usize> = Vec::with_capacity(n);
    let mut i: usize = 0;
    while i < n
        invariant
            i <= n,
            lens@ == same_lens(len, i as int),
        decreases n - i,
    {
        lens.push(len);
        proof {
            assert(lens@ =~= same_lens(len, i + 1));
        }
        i += 1;
    }
    lens
}

/// All rows of an FP8 matrix for `n` inputs of one length.
pub open spec fn multi_whole(
    weight: TensorView,
    scale: TensorView,
    input_len: usize,
    output_len: usize,
    n: int,
) -> Result<Fp8RowsView, ComputeError> {
    fp8_multi(
        weight,
        scale,
        0,
        weight.dims[0] as int,
        same_lens(input_len, n),
        same_lens(output_len, n),
    )
}

fn plan_multi_whole<'a>(
    weight: QuantTensorLayout<'a>,
    scale: QuantTensorLayout<'a>,
    input_len: usize,
    output_len: usize,
    n: usize,
) -> (result: Result<Fp8Rows<'a>, ComputeError>)
    requires
        weight@.dims.len() == 2,
    ensures
        agrees(result, multi_whole(weight@, scale@, input_len, output_len, n as int)),
        result matches Ok(rows) ==> rows@.wf(),
{
    let (rows, _cols): (usize, usize) = dims2(&weight);
    let inputs: Vec<usize> = repeated(input_len, n);
    let outputs: Vec<usize> = repeated(output_len, n);
    plan_fp8_rows_multi(weight, scale, 0, rows, &inputs, &outputs)
}

/// The five matrices of latent attention.
#[derive(Clone, Copy)]
pub struct MlaMatrices<'a> {
    pub wq_a: QuantTensorLayout<'a>,
    pub wq_b: QuantTensorLayout<'a>,
    pub wkv: QuantTensorLayout<'a>,
    pub wo_a: QuantTensorLayout<'a>,
    pub wo_b: QuantTensorLayout<'a>,
}

/// What the five matrices hold.
#[verifier::ext_equal]
pub struct MlaMatricesView {
    pub wq_a: TensorView,
    pub wq_b: TensorView,
    pub wkv: TensorView,
    pub wo_a: TensorView,
    pub wo_b: TensorView,
}

impl<'a> View for MlaMatrices<'a> {
    type V = MlaMatricesView;

    open spec fn view(&self) -> MlaMatricesView {
        MlaMatricesView {
            wq_a: self.wq_a@,
            wq_b: self.wq_b@,
            wkv: self.wkv@,
            wo_a: self.wo_a@,
            wo_b: self.wo_b@,
        }
    }
}

impl MlaMatricesView {
    /// All five are FP8.
    pub open spec fn all_fp8(self) -> bool {
        self.wq_a.quant_format == QUANT_DEEPSEEK_FP8_E4M3 && self.wq_b.quant_format
            == QUANT_DEEPSEEK_FP8_E4M3 && self.wkv.quant_format == QUANT_DEEPSEEK_FP8_E4M3
            && self.wo_a.quant_format == QUANT_DEEPSEEK_FP8_E4M3 && self.wo_b.quant_format
            == QUANT_DEEPSEEK_FP8_E4M3
    }

    /// All five are matrices.
    pub open spec fn all_rank2(self) -> bool {
        self.wq_a.dims.len() == 2 && self.wq_b.dims.len() == 2 && self.wkv.dims.len() == 2
            && self.wo_a.dims.len() == 2 && self.wo_b.dims.len() == 2
    }
}

/// The five matrices of latent attention in a block.
pub open spec fn mla_matrices(b: BlockView, config: ComputeConfig, dims: MlaDims) -> Result<
    MlaMatricesView,
    ComputeError,
> {
    match needed_matrix(b, TensorRole::QProj, config.hidden_size, "MLA wq_a missing") {
        Err(error) => Err(error),
        Ok(wq_a) => match needed_matrix(
            b,
            TensorRole::QProj,
            config.q_lora_rank,
            "MLA wq_b missing",
        ) {
            Err(error) => Err(error),
            Ok(wq_b) => match needed_matrix(
                b,
                TensorRole::KvProj,
                config.hidden_size,
                "MLA wkv missing",
            ) {
                Err(error) => Err(error),
                Ok(wkv) => match needed_matrix(
                    b,
                    TensorRole::OProj,
                    dims.group_in,
                    "MLA wo_a missing",
                ) {
                    Err(error) => Err(error),
                    Ok(wo_a) => match needed_matrix(
                        b,
                        TensorRole::OProj,
                        dims.o_mid_len,
                        "MLA wo_b missing",
                    ) {
                        Err(error) => Err(error),
                        Ok(wo_b) => Ok(MlaMatricesView { wq_a, wq_b, wkv, wo_a, wo_b }),
                    },
                },
            },
        },
    }
}

fn find_mla_matrices<'a>(
    layout: &QuantBlockLayout<'a>,
    config: &ComputeConfig,
    dims: MlaDims,
) -> (result: Result<MlaMatrices<'a>, ComputeError>)
    ensures
        agrees(result, mla_matrices(layout@, *config, dims)),
        result matches Ok(found) ==> found@.all_rank2(),
{
    let hidden: usize = config.hidden_size;
    let wq_a = match find_ranked(layout, TensorRole::QProj, hidden, "MLA wq_a missing") {
        Ok(tensor) => tensor,
        Err(error) => return Err(error),
    };
    let wq_b = match find_ranked(
        layout,
        TensorRole::QProj,
        config.q_lora_rank,
        "MLA wq_b missing",
    ) {
        Ok(tensor) => tensor,
        Err(error) => return Err(error),
    };
    let wkv = match find_ranked(layout, TensorRole::KvProj, hidden, "MLA wkv missing") {
        Ok(tensor) => tensor,
        Err(error) => return Err(error),
    };
    let wo_a = match find_ranked(layout, TensorRole::OProj, dims.group_in, "MLA wo_a missing") {
        Ok(tensor) => tensor,
        Err(error) => return Err(error),
    };
    let wo_b = match find_ranked(layout, TensorRole::OProj, dims.o_mid_len, "MLA wo_b missing") {
        Ok(tensor) => tensor,
        Err(error) => return Err(error),
    };
    Ok(MlaMatrices { wq_a, wq_b, wkv, wo_a, wo_b })
}

proof fn lemma_first_accepted(b: BlockView, from: int, wanted: spec_fn(TensorView) -> bool)
    ensures
        b.first_from(from, wanted) matches Ok(Some(t)) ==> wanted(t),
    decreases b.count() - from,
{
    if from < b.count() {
        match b.tensor(from) {
            Err(_) => {},
            Ok(t) => if !wanted(t) {
                lemma_first_accepted(b, from + 1, wanted);
            },
        }
    }
}

fn find_ranked<'a>(
    layout: &QuantBlockLayout<'a>,
    role: TensorRole,
    cols: usize,
    missing: &'static str,
) -> (result: Result<QuantTensorLayout<'a>, ComputeError>)
    ensures
        agrees(result, needed_matrix(layout@, role, cols, missing)),
        result matches Ok(tensor) ==> has_role_and_cols(tensor@, role, cols),
{
    proof {
        lemma_first_accepted(
            layout@,
            0,
            |t: TensorView| has_role_and_cols(t, role, cols),
        );
    }
    find_matrix(layout, role, cols, missing)
}

/// What latent attention over several positions reads, where every matrix is
/// read once for all of them.
pub struct MlaBatch<'a> {
    pub dims: MlaDims,
    pub wq_a: Fp8Rows<'a>,
    pub q_norm: Option<NormPlan<'a>>,
    pub wq_b: Fp8Rows<'a>,
    pub wkv: Fp8Rows<'a>,
    pub kv_norm: Option<NormPlan<'a>>,
    pub sink: Option<Vec<u32>>,
    pub rope_theta_bits: u32,
    pub yarn: Option<YarnRope>,
    pub matrices: MlaMatrices<'a>,
    pub wo_a_scale: QuantTensorLayout<'a>,
    pub wo_b_scale: QuantTensorLayout<'a>,
}

/// What latent attention over several positions reads, as contents.
#[verifier::ext_equal]
pub struct MlaBatchView {
    pub dims: MlaDims,
    pub wq_a: Fp8RowsView,
    pub q_norm: Option<NormView>,
    pub wq_b: Fp8RowsView,
    pub wkv: Fp8RowsView,
    pub kv_norm: Option<NormView>,
    pub sink: Option<Seq<u32>>,
    pub rope_theta_bits: u32,
    pub yarn: Option<YarnRope>,
    pub matrices: MlaMatricesView,
    pub wo_a_scale: TensorView,
    pub wo_b_scale: TensorView,
}

impl<'a> View for MlaBatch<'a> {
    type V = MlaBatchView;

    open spec fn view(&self) -> MlaBatchView {
        MlaBatchView {
            dims: self.dims,
            wq_a: self.wq_a@,
            q_norm: norm_view(self.q_norm),
            wq_b: self.wq_b@,
            wkv: self.wkv@,
            kv_norm: norm_view(self.kv_norm),
            sink: list_view(self.sink),
            rope_theta_bits: self.rope_theta_bits,
            yarn: self.yarn,
            matrices: self.matrices@,
            wo_a_scale: self.wo_a_scale@,
            wo_b_scale: self.wo_b_scale@,
        }
    }
}

/// The error of the first position from `from` on that has no slot.
pub open spec fn slots_error<T>(
    kv: KvView<T>,
    layer_index: int,
    positions: Seq<usize>,
    from: int,
) -> Option<ComputeError>
    decreases positions.len() - from,
{
    if from >= positions.len() {
        None
    } else {
        match kv.slot_error(layer_index, positions[from] as int) {
            Some(error) => Some(error),
            None => slots_error(kv, layer_index, positions, from + 1),
        }
    }
}

/// The five scales, in the order in which they are looked up.
pub open spec fn mla_scales(b: BlockView, m: MlaMatricesView) -> Result<
    MlaMatricesView,
    ComputeError,
> {
    match fp8_scale_of(b, m.wq_a) {
        Err(error) => Err(error),
        Ok(wq_a) => match fp8_scale_of(b, m.wq_b) {
            Err(error) => Err(error),
            Ok(wq_b) => match fp8_scale_of(b, m.wkv) {
                Err(error) => Err(error),
                Ok(wkv) => match fp8_scale_of(b, m.wo_a) {
                    Err(error) => Err(error),
                    Ok(wo_a) => match fp8_scale_of(b, m.wo_b) {
                        Err(error) => Err(error),
                        Ok(wo_b) => Ok(MlaMatricesView { wq_a, wq_b, wkv, wo_a, wo_b }),
                    },
                },
            },
        },
    }
}

fn find_mla_scales<'a>(layout: &QuantBlockLayout<'a>, m: MlaMatrices<'a>) -> (result: Result<
    MlaMatrices<'a>,
    ComputeError,
>)
    ensures
        agrees(result, mla_scales(layout@, m@)),
{
    let wq_a = match fp8_scale_for_weight(layout, m.wq_a) {
        Ok(scale) => scale,
        Err(error) => return Err(error),
    };
    let wq_b = match fp8_scale_for_weight(layout, m.wq_b) {
        Ok(scale) => scale,
        Err(error) => return Err(error),
    };
    let wkv = match fp8_scale_for_weight(layout, m.wkv) {
        Ok(scale) => scale,
        Err(error) => return Err(error),
    };
    let wo_a = match fp8_scale_for_weight(layout, m.wo_a) {
        Ok(scale) => scale,
        Err(error) => return Err(error),
    };
    let wo_b = match fp8_scale_for_weight(layout, m.wo_b) {
        Ok(scale) => scale,
        Err(error) => return Err(error),
    };
    Ok(MlaMatrices { wq_a, wq_b, wkv, wo_a, wo_b })
}

/// The first half of batched attention, once matrices and scales are known.
pub open spec fn mla_batched<T>(
    b: BlockView,
    config: ComputeConfig,
    kv: KvView<T>,
    layer_index: int,
    positions: Seq<usize>,
    dims: MlaDims,
    m: MlaMatricesView,
    scales: MlaMatricesView,
) -> Result<MlaBatchView, ComputeError> {
    let n = positions.len() as int;
    let hidden = config.hidden_size;
    let rank = config.q_lora_rank;
    if m.wo_a.dims[0] != dims.o_mid_len {
        Err(ComputeError::InvalidShape("MLA wo_a rows mismatch"))
    } else if kv.num_kv_heads != 1 || kv.head_dim < dims.head_dim {
        Err(ComputeError::InvalidShape("MLA KV cache layout mismatch"))
    } else {
        match multi_whole(m.wq_a, scales.wq_a, hidden, rank, n) {
            Err(error) => Err(error),
            Ok(wq_a) => match norm_in(b, "q_a_layernorm".spec_bytes(), rank as int, rank as int) {
                Err(error) => Err(error),
                Ok(q_norm) => match multi_whole(m.wq_b, scales.wq_b, rank, dims.q_full_len, n) {
                    Err(error) => Err(error),
                    Ok(wq_b) => match multi_whole(m.wkv, scales.wkv, hidden, dims.head_dim, n) {
                        Err(error) => Err(error),
                        Ok(wkv) => match norm_in(
                            b,
                            "kv_a_layernorm".spec_bytes(),
                            dims.head_dim as int,
                            dims.head_dim as int,
                        ) {
                            Err(error) => Err(error),
                            Ok(kv_norm) => match slots_error(kv, layer_index, positions, 0) {
                                Some(error) => Err(error),
                                None => match attention_sink(b, config.num_attention_heads) {
                                    Err(error) => Err(error),
                                    Ok(sink) => Ok(
                                        MlaBatchView {
                                            dims,
                                            wq_a,
                                            q_norm,
                                            wq_b,
                                            wkv,
                                            kv_norm,
                                            sink,
                                            rope_theta_bits: layer_rope(layer_index).0,
                                            yarn: layer_rope(layer_index).1,
                                            matrices: m,
                                            wo_a_scale: scales.wo_a,
                                            wo_b_scale: scales.wo_b,
                                        },
                                    ),
                                },
                            },
                        },
                    },
                },
            },
        }
    }
}

/// Latent attention over several positions: the batched plan, or none where
/// the positions are to be taken one by one.
pub open spec fn mla_batch<T>(
    b: BlockView,
    config: ComputeConfig,
    kv: KvView<T>,
    layer_index: int,
    positions: Seq<usize>,
    ys_len: int,
    one_by_one: bool,
) -> Result<Option<MlaBatchView>, ComputeError> {
    if positions.len() == 0 || ys_len < positions.len() * config.hidden_size {
        Err(ComputeError::InvalidShape("MLA batch ys size"))
    } else {
        match mla_dims(config) {
            Err(error) => Err(error),
            Ok(dims) => match mla_matrices(b, config, dims) {
                Err(error) => Err(error),
                Ok(m) => if positions.len() == 1 || one_by_one || !m.all_fp8() {
                    Ok(None)
                } else {
                    match mla_scales(b, m) {
                        Err(error) => Err(error),
                        Ok(scales) => match mla_batched(
                            b,
                            config,
                            kv,
                            layer_index,
                            positions,
                            dims,
                            m,
                            scales,
                        ) {
                            Err(error) => Err(error),
                            Ok(plan) => Ok(Some(plan)),
                        },
                    }
                },
            },
        }
    }
}

fn check_slots<T: Copy>(kv_cache: &KVCache<'_, T>, layer_index: usize, positions: &[usize]) -> (
error: Option<ComputeError>)
    ensures
        error == slots_error(kv_cache@, layer_index as int, positions@, 0),
{
    let mut i: usize = 0;
    while i < positions.len()
        invariant
            i <= positions@.len(),
            slots_error(kv_cache@, layer_index as int, positions@, 0) == slots_error(
                kv_cache@,
                layer_index as int,
                positions@,
                i as int,
            ),
        decreases positions@.len() - i,
    {
        match kv_cache.check_slot(layer_index, positions[i]) {
            Some(error) => return Some(error),
            None => {},
        }
        i += 1;
    }
    None
}

fn plan_mla_batched<'a, T: Copy>(
    layout: &QuantBlockLayout<'a>,
    config: &ComputeConfig,
    kv_cache: &KVCache<'_, T>,
    layer_index: usize,
    positions: &[usize],
    dims: MlaDims,
    m: MlaMatrices<'a>,
    scales: MlaMatrices<'a>,
) -> (result: Result<MlaBatch<'a>, ComputeError>)
    requires
        m@.all_rank2(),
    ensures
        agrees(
            result,
            mla_batched(
                layout@,
                *config,
                kv_cache@,
                layer_index as int,
                positions@,
                dims,
                m@,
                scales@,
            ),
        ),
        result matches Ok(plan) ==> plan.wq_a@.wf() && plan.wq_b@.wf() && plan.wkv@.wf(),
{
    let n: usize = positions.len();
    let hidden: usize = config.hidden_size;
    let rank: usize = config.q_lora_rank;
    let (wo_a_rows, _wo_a_cols): (usize, usize) = dims2(&m.wo_a);
    if wo_a_rows != dims.o_mid_len {
        return Err(ComputeError::InvalidShape("MLA wo_a rows mismatch"));
    }
    let (kv_heads, kv_head_dim): (usize, usize) = kv_cache.head_layout();
    if kv_heads != 1 || kv_head_dim < dims.head_dim {
        return Err(ComputeError::InvalidShape("MLA KV cache layout mismatch"));
    }
    let wq_a = match plan_multi_whole(m.wq_a, scales.wq_a, hidden, rank, n) {
        Ok(rows) => rows,
        Err(error) => return Err(error),
    };
    let q_norm = match plan_marked_norm(layout, "q_a_layernorm", rank, rank) {
        Ok(plan) => plan,
        Err(error) => return Err(error),
    };
    let wq_b = match plan_multi_whole(m.wq_b, scales.wq_b, rank, dims.q_full_len, n) {
        Ok(rows) => rows,
        Err(error) => return Err(error),
    };
    let wkv = match plan_multi_whole(m.wkv, scales.wkv, hidden, dims.head_dim, n) {
        Ok(rows) => rows,
        Err(error) => return Err(error),
    };
    let kv_norm = match plan_marked_norm(layout, "kv_a_layernorm", dims.head_dim, dims.head_dim) {
        Ok(plan) => plan,
        Err(error) => return Err(error),
    };
    match check_slots(kv_cache, layer_index, positions) {
        Some(error) => return Err(error),
        None => {},
    }
    let sink = match attention_sink_values(layout, config.num_attention_heads) {
        Ok(sink) => sink,
        Err(error) => return Err(error),
    };
    let (rope_theta_bits, yarn): (u32, Option<YarnRope>) = deepseek_rope_for_layer(layer_index);
    Ok(
        MlaBatch {
            dims,
            wq_a,
            q_norm,
            wq_b,
            wkv,
            kv_norm,
            sink,
            rope_theta_bits,
            yarn,
            matrices: m,
            wo_a_scale: scales.wo_a,
            wo_b_scale: scales.wo_b,
        },
    )
}

/// Plans latent attention over several positions, in rising order. Without a
/// plan the positions are taken one by one: a single position, a request to
/// do so, or a matrix that is not FP8.
pub fn plan_mla_batch<'a, T: Copy>(
    layout: &QuantBlockLayout<'a>,
    config: &ComputeConfig,
    kv_cache: &KVCache<'_, T>,
    layer_index: usize,
    positions: &[usize],
    ys_len: usize,
    one_by_one: bool,
) -> (result: Result<Option<MlaBatch<'a>>, ComputeError>)
    ensures
        found_agrees(
            result,
            mla_batch(
                layout@,
                *config,
                kv_cache@,
                layer_index as int,
                positions@,
                ys_len as int,
                one_by_one,
            ),
        ),
        result matches Ok(Some(plan)) ==> plan.wq_a@.wf() && plan.wq_b@.wf() && plan.wkv@.wf(),
{
    if positions.len() == 0 {
        return Err(ComputeError::InvalidShape("MLA batch ys size"));
    }
    let needed: usize = match positions.len().checked_mul(config.hidden_size) {
        Some(len) => len,
        None => return Err(ComputeError::InvalidShape("MLA batch ys size")),
    };
    if ys_len < needed {
        return Err(ComputeError::InvalidShape("MLA batch ys size"));
    }
    let dims: MlaDims = match plan_mla_dims(config) {
        Ok(dims) => dims,
        Err(error) => return Err(error),
    };
    let m = match find_mla_matrices(layout, config, dims) {
        Ok(found) => found,
        Err(error) => return Err(error),
    };
    let all_fp8: bool = m.wq_a.quant_format == QUANT_DEEPSEEK_FP8_E4M3 && m.wq_b.quant_format
        == QUANT_DEEPSEEK_FP8_E4M3 && m.wkv.quant_format == QUANT_DEEPSEEK_FP8_E4M3
        && m.wo_a.quant_format == QUANT_DEEPSEEK_FP8_E4M3 && m.wo_b.quant_format
        == QUANT_DEEPSEEK_FP8_E4M3;
    if positions.len() == 1 || one_by_one || !all_fp8 {
        return Ok(None);
    }
    let scales = match find_mla_scales(layout, m) {
        Ok(scales) => scales,
        Err(error) => return Err(error),
    };
    match plan_mla_batched(layout, config, kv_cache, layer_index, positions, dims, m, scales) {
        Ok(plan) => Ok(Some(plan)),
        Err(error) => Err(error),
    }
}

/// The first `n` groups of a batched output projection over `npos` positions.
pub open spec fn batch_groups(
    wo_a: TensorView,
    scale: TensorView,
    o_lora: usize,
    group_in: usize,
    npos: int,
    n: int,
) -> Result<Seq<Fp8RowsView>, ComputeError>
    decreases n,
{
    if n <= 0 {
        Ok(seq![])
    } else {
        match batch_groups(wo_a, scale, o_lora, group_in, npos, n - 1) {
            Err(error) => Err(error),
            Ok(before) => match fp8_multi(
                wo_a,
                scale,
                (n - 1) * o_lora,
                n * o_lora,
                same_lens(group_in, npos),
                same_lens(o_lora, npos),
            ) {
                Err(error) => Err(error),
                Ok(rows) => Ok(before.push(rows)),
            },
        }
    }
}

/// The contents of a list of row plans.
pub open spec fn rows_views(rows: Seq<Fp8Rows<'_>>) -> Seq<Fp8RowsView> {
    rows.map_values(|r: Fp8Rows<'_>| r@)
}

proof fn lemma_batch_group_error(
    wo_a: TensorView,
    scale: TensorView,
    o_lora: usize,
    group_in: usize,
    npos: int,
    k: int,
    n: int,
)
    requires
        0 <= k <= n,
        batch_groups(wo_a, scale, o_lora, group_in, npos, k) is Err,
    ensures
        batch_groups(wo_a, scale, o_lora, group_in, npos, n) == batch_groups(
            wo_a,
            scale,
            o_lora,
            group_in,
            npos,
            k,
        ),
    decreases n,
{
    if k < n {
        lemma_batch_group_error(wo_a, scale, o_lora, group_in, npos, k, n - 1);
    }
}

/// Plans the output projection of batched attention: one plan per group, then
/// one over all groups.
pub fn plan_mla_batch_outputs<'a>(
    batch: &MlaBatch<'a>,
    config: &ComputeConfig,
    npos: usize,
) -> (result: Result<(Vec<Fp8Rows<'a>>, Fp8Rows<'a>), ComputeError>)
    requires
        batch@.matrices.all_rank2(),
        config.o_lora_rank > 0,
        config.o_groups * config.o_lora_rank <= usize::MAX,
    ensures
        match batch_groups(
            batch@.matrices.wo_a,
            batch@.wo_a_scale,
            config.o_lora_rank,
            batch@.dims.group_in,
            npos as int,
            config.o_groups as int,
        ) {
            Err(error) => result == Err::<(Vec<Fp8Rows<'a>>, Fp8Rows<'a>), ComputeError>(error),
            Ok(groups) => match multi_whole(
                batch@.matrices.wo_b,
                batch@.wo_b_scale,
                batch@.dims.o_mid_len,
                config.hidden_size,
                npos as int,
            ) {
                Err(error) => result == Err::<(Vec<Fp8Rows<'a>>, Fp8Rows<'a>), ComputeError>(error),
                Ok(wo_b) => {
                    &&& result matches Ok(plan)
                    &&& rows_views(plan.0@) == groups
                    &&& plan.1@ == wo_b
                    &&& plan.1@.wf()
                    &&& forall|i: int| 0 <= i < plan.0@.len() ==> (#[trigger] plan.0@[i])@.wf()
                },
            },
        },
{
    let o_lora: usize = config.o_lora_rank;
    let group_in: usize = batch.dims.group_in;
    let count: usize = config.o_groups;
    let ghost wo_a = batch@.matrices.wo_a;
    let ghost scale = batch@.wo_a_scale;
    let inputs: Vec<usize> = repeated(group_in, npos);
    let outputs: Vec<usize> = repeated(o_lora, npos);
    let mut groups: Vec<Fp8Rows<'a>> = Vec::new();
    let mut group: usize = 0;
    proof {
        assert(rows_views(groups@) =~= seq![]);
    }
    while group < count
        invariant
            group <= count,
            count == config.o_groups,
            o_lora == config.o_lora_rank,
            group_in == batch@.dims.group_in,
            o_lora > 0,
            count * o_lora <= usize::MAX,
            wo_a == batch@.matrices.wo_a,
            scale == batch@.wo_a_scale,
            inputs@ == same_lens(group_in, npos as int),
            outputs@ == same_lens(o_lora, npos as int),
            batch_groups(wo_a, scale, o_lora, group_in, npos as int, group as int) == Ok::<
                Seq<Fp8RowsView>,
                ComputeError,
            >(rows_views(groups@)),
            forall|i: int| 0 <= i < groups@.len() ==> (#[trigger] groups@[i])@.wf(),
        decreases count - group,
    {
        proof {
            lemma_group_rows(count as int, o_lora as int, group as int);
        }
        let row_start: usize = group * o_lora;
        let ghost before = groups@;
        match plan_fp8_rows_multi(
            batch.matrices.wo_a,
            batch.wo_a_scale,
            row_start,
            row_start + o_lora,
            &inputs,
            &outputs,
        ) {
            Ok(rows) => {
                groups.push(rows);
                proof {
                    assert(rows_views(groups@) =~= rows_views(before).push(rows@));
                }
            },
            Err(error) => {
                proof {
                    lemma_batch_group_error(
                        wo_a,
                        scale,
                        o_lora,
                        group_in,
                        npos as int,
                        group + 1,
                        count as int,
                    );
                }
                return Err(error);
            },
        }
        group += 1;
    }
    match plan_multi_whole(
        batch.matrices.wo_b,
        batch.wo_b_scale,
        batch.dims.o_mid_len,
        config.hidden_size,
        npos,
    ) {
        Ok(wo_b) => Ok((groups, wo_b)),
        Err(error) => Err(error),
    }
}

/// The weights of the first `n` row plans.
pub open spec fn rows_values(rows: Seq<Fp8RowsView>, n: int) -> int
    decreases n,
{
    if n <= 0 {
        0
    } else {
        rows_values(rows, n - 1) + rows[n - 1].values()
    }
}

impl MlaInputsView {
    /// Number of weights that the first half goes through.
    pub open spec fn values(self) -> int {
        self.wq_a.1 + self.wq_b.1 + self.wkv.1
    }
}

impl MlaOutputsView {
    /// Number of weights that the output projection goes through.
    pub open spec fn values(self, o_lora: int, group_in: int) -> int {
        self.groups.len() * (o_lora * group_in) + self.wo_b.1
    }
}

impl MlaBatchView {
    /// Number of weights that the first half goes through for each position.
    pub open spec fn values(self) -> int {
        self.wq_a.values() + self.wq_b.values() + self.wkv.values()
    }
}

/// Number of weights that attention over `npos` positions goes through.
pub open spec fn batch_values(
    batch: MlaBatchView,
    groups: Seq<Fp8RowsView>,
    wo_b: Fp8RowsView,
    npos: int,
) -> int {
    npos * (batch.values() + rows_values(groups, groups.len() as int) + wo_b.values())
}

/// Counts the weights that attention at one position goes through. `None` where
/// they are too many to count.
pub fn count_mla_values(
    inputs: &MlaInputs<'_>,
    outputs: &MlaOutputs<'_>,
    config: &ComputeConfig,
) -> (count: Option<usize>)
    ensures
        count == as_count(
            inputs@.values() + outputs@.values(
                config.o_lora_rank as int,
                inputs@.dims.group_in as int,
            ),
        ),
{
    let first = add_counts(Some(inputs.wq_a.1), Some(inputs.wq_b.1));
    let first = add_counts(first, Some(inputs.wkv.1));
    let groups = count_rows(outputs.groups.len(), config.o_lora_rank, inputs.dims.group_in);
    proof {
        assert(plan_views(outputs.groups@).len() == outputs.groups@.len());
        assert(0 <= outputs.groups@.len() * (config.o_lora_rank * inputs.dims.group_in))
            by (nonlinear_arith);
    }
    let last = add_counts(groups, Some(outputs.wo_b.1));
    add_counts(first, last)
}

fn count_fp8(rows: &Fp8Rows<'_>) -> (count: Option<usize>)
    requires
        rows@.wf(),
    ensures
        count == as_count(rows@.values()),
        rows@.values() >= 0,
{
    proof {
        assert(1 * ((rows.row_end - rows.row_start) * rows.cols) == (rows.row_end
            - rows.row_start) * rows.cols);
        assert(0 <= (rows.row_end - rows.row_start) * rows.cols) by (nonlinear_arith)
            requires
                rows.row_start < rows.row_end,
        ;
    }
    count_rows(1, rows.row_end - rows.row_start, rows.cols)
}

/// Counts the weights that attention over `npos` positions goes through. `None`
/// where they are too many to count.
pub fn count_mla_batch_values(
    batch: &MlaBatch<'_>,
    groups: &[Fp8Rows<'_>],
    wo_b: &Fp8Rows<'_>,
    npos: usize,
) -> (count: Option<usize>)
    requires
        npos > 0,
        batch@.wq_a.wf() && batch@.wq_b.wf() && batch@.wkv.wf() && wo_b@.wf(),
        forall|i: int| 0 <= i < groups@.len() ==> (#[trigger] groups@[i])@.wf(),
    ensures
        count == as_count(batch_values(batch@, rows_views(groups@), wo_b@, npos as int)),
{
    let ghost views = rows_views(groups@);
    let mut total: Option<usize> = count_fp8(&batch.wq_a);
    let second = count_fp8(&batch.wq_b);
    let third = count_fp8(&batch.wkv);
    let last = count_fp8(wo_b);
    total = add_counts(total, second);
    total = add_counts(total, third);
    total = add_counts(total, last);
    let ghost fixed = batch@.values() + wo_b@.values();
    proof {
        assert(fixed >= 0);
    }
    let mut i: usize = 0;
    while i < groups.len()
        invariant
            i <= groups@.len(),
            views == rows_views(groups@),
            fixed >= 0,
            rows_values(views, i as int) >= 0,
            total == as_count(fixed + rows_values(views, i as int)),
            forall|k: int| 0 <= k < groups@.len() ==> (#[trigger] groups@[k])@.wf(),
        decreases groups.len() - i,
    {
        let group = count_fp8(&groups[i]);
        proof {
            assert(views[i as int] == groups@[i as int]@);
        }
        total = add_counts(total, group);
        i += 1;
    }
    let ghost one = fixed + rows_values(views, views.len() as int);
    proof {
        assert(views.len() == groups@.len());
        assert(npos * one >= one && npos * one == one * npos) by (nonlinear_arith)
            requires
                npos >= 1,
                one >= 0,
        ;
    }
    match total {
        Some(values) => values.checked_mul(npos),
        None => None,
    }
}

/// The raw keys that a position sees, cut to the head dimension.
pub open spec fn window_keys<T>(
    kv: KvView<T>,
    layer_index: int,
    token_pos: int,
    head_dim: int,
) -> Seq<Seq<T>> {
    let start = window_start_of(token_pos);
    Seq::new(
        (token_pos + 1 - start) as nat,
        |i: int| kv.key(layer_index, start + i).take(head_dim),
    )
}

/// The contents of a list of keys.
pub open spec fn key_views<T>(keys: Seq<&[T]>) -> Seq<Seq<T>> {
    keys.map_values(|key: &[T]| key@)
}

/// Reads the raw keys that a position sees.
pub fn read_window<'b, T: Copy>(
    kv_cache: &'b KVCache<'_, T>,
    layer_index: usize,
    token_pos: usize,
    head_dim: usize,
) -> (result: Result<Vec<&'b [T]>, ComputeError>)
    requires
        kv_cache@.wf(),
        head_dim <= kv_cache@.vector_len(),
    ensures
        match kv_cache@.slot_error(layer_index as int, token_pos as int) {
            Some(error) => result == Err::<Vec<&'b [T]>, ComputeError>(error),
            None => result matches Ok(keys) && key_views(keys@) == window_keys(
                kv_cache@,
                layer_index as int,
                token_pos as int,
                head_dim as int,
            ),
        },
{
    match kv_cache.check_slot(layer_index, token_pos) {
        Some(error) => return Err(error),
        None => {},
    }
    let (start, end): (usize, usize) = sliding_window(token_pos);
    let mut keys: Vec<&'b [T]> = Vec::new();
    let mut pos: usize = start;
    let ghost all = window_keys(
        kv_cache@,
        layer_index as int,
        token_pos as int,
        head_dim as int,
    );
    proof {
        assert(key_views(keys@) =~= all.take(0));
    }
    while pos < end
        invariant
            start <= pos <= end,
            start == window_start_of(token_pos as int),
            end == token_pos + 1,
            kv_cache@.wf(),
            head_dim <= kv_cache@.vector_len(),
            kv_cache@.slot_error(layer_index as int, token_pos as int) is None,
            all == window_keys(
                kv_cache@,
                layer_index as int,
                token_pos as int,
                head_dim as int,
            ),
            key_views(keys@) == all.take(pos - start),
        decreases end - pos,
    {
        match kv_cache.key_slice(layer_index, pos) {
            Ok(key) => {
                let ghost before = keys@;
                proof {
                    kv_cache.lemma_key_len(layer_index as int, pos as int);
                    assert(key@.len() == key.len());
                }
                keys.push(&key[0..head_dim]);
                proof {
                    assert(key@.subrange(0, head_dim as int) =~= key@.take(head_dim as int));
                    assert(key_views(keys@) =~= key_views(before).push(all[pos - start]));
                    assert(all.take(pos - start).push(all[pos - start]) =~= all.take(
                        pos + 1 - start,
                    ));
                }
            },
            Err(error) => return Err(error),
        }
        pos += 1;
    }
    proof {
        assert(all.take(end - start) =~= all);
    }
    Ok(keys)
}

/// A batch writes the keys of all positions before any is read, and still every
/// position sees the keys that it sees when the positions are taken one by one:
/// those after its own key was written.
pub proof fn law_batch_window_matches_single<T>(
    kv: KvView<T>,
    layer_index: int,
    positions: Seq<usize>,
    latents: Seq<Seq<T>>,
    index: int,
    head_dim: int,
)
    requires
        kv.wf(),
        kv.storage.len() <= usize::MAX,
        ascend(positions),
        0 <= index < positions.len(),
        slots_error(kv, layer_index, positions, 0) is None,
    ensures
        window_keys(
            latents_written(kv, layer_index, positions, latents, positions.len() as int),
            layer_index,
            positions[index] as int,
            head_dim,
        ) == window_keys(
            latents_written(kv, layer_index, positions, latents, index + 1),
            layer_index,
            positions[index] as int,
            head_dim,
        ),
{
    let n = positions.len() as int;
    let at = positions[index] as int;
    let start = window_start_of(at);
    lemma_slots(kv, layer_index, positions, 0);
    let all = latents_written(kv, layer_index, positions, latents, n);
    let own = latents_written(kv, layer_index, positions, latents, index + 1);
    assert forall|seen: int| start <= seen <= at implies #[trigger] all.key(layer_index, seen)
        == own.key(layer_index, seen) by {
        law_later_latents_are_not_seen(kv, layer_index, positions, latents, index, n, seen);
    }
    assert(window_keys(all, layer_index, at, head_dim) =~= window_keys(
        own,
        layer_index,
        at,
        head_dim,
    ));
}

proof fn lemma_slots<T>(kv: KvView<T>, layer_index: int, positions: Seq<usize>, from: int)
    requires
        0 <= from,
        slots_error(kv, layer_index, positions, from) is None,
    ensures
        forall|i: int|
            from <= i < positions.len() ==> kv.slot_error(
                layer_index,
                #[trigger] positions[i] as int,
            ) is None,
    decreases positions.len() - from,
{
    if from < positions.len() {
        lemma_slots(kv, layer_index, positions, from + 1);
    }
}

proof fn lemma_all_slots<T>(kv: KvView<T>, layer_index: int, positions: Seq<usize>, from: int)
    requires
        0 <= from,
        forall|i: int|
            from <= i < positions.len() ==> kv.slot_error(
                layer_index,
                #[trigger] positions[i] as int,
            ) is None,
    ensures
        slots_error(kv, layer_index, positions, from) is None,
    decreases positions.len() - from,
{
    if from < positions.len() {
        lemma_all_slots(kv, layer_index, positions, from + 1);
    }
}

proof fn lemma_needed(b: BlockView, role: TensorRole, cols: usize, missing: &'static str)
    ensures
        needed_matrix(b, role, cols, missing) matches Ok(t) ==> has_role_and_cols(t, role, cols),
{
    lemma_first_accepted(b, 0, |t: TensorView| has_role_and_cols(t, role, cols));
}

/// All rows for `n` inputs, against a product with the whole matrix.
proof fn lemma_multi_is_whole(
    b: BlockView,
    t: TensorView,
    scale: TensorView,
    input_len: usize,
    output_len: usize,
    n: int,
)
    requires
        n >= 1,
        t.dims.len() == 2,
        t.quant_format == QUANT_DEEPSEEK_FP8_E4M3,
        fp8_scale_of(b, t) == Ok::<TensorView, ComputeError>(scale),
    ensures
        ({
            let multi = multi_whole(t, scale, input_len, output_len, n);
            let single = gemv_in(b, t, input_len as int, output_len as int);
            &&& multi is Ok <==> single is Ok
            &&& multi is Ok ==> single->Ok_0.0 == GemvView::Fp8(multi->Ok_0)
                && single->Ok_0.1 == multi->Ok_0.values()
        }),
{
    let ins = same_lens(input_len, n);
    let outs = same_lens(output_len, n);
    law_several_inputs_share_rows(t, scale, 0, t.dims[0] as int, ins, outs);
    lemma_part_is_whole(t, scale, input_len as int, output_len as int);
    let part = fp8_part(
        t,
        scale,
        0,
        t.dims[0] as int,
        input_len as int,
        output_len as int,
    );
    assert(ins[0] == input_len && outs[0] == output_len);
    assert forall|i: int| 0 <= i < ins.len() implies fp8_part(
        t,
        scale,
        0,
        t.dims[0] as int,
        #[trigger] ins[i] as int,
        outs[i] as int,
    ) == part by {}
}

proof fn lemma_groups_match(
    wo_a: TensorView,
    scale: TensorView,
    o_lora: usize,
    group_in: usize,
    npos: int,
    n: int,
)
    requires
        npos >= 1,
        n >= 0,
        wo_a.dims.len() == 2,
    ensures
        ({
            let batch = batch_groups(wo_a, scale, o_lora, group_in, npos, n);
            let single = group_plans(wo_a, Some(scale), o_lora as int, group_in as int, n);
            &&& batch is Ok <==> single is Ok
            &&& batch is Ok ==> single->Ok_0 == batch->Ok_0.map_values(
                |rows: Fp8RowsView| GemvView::Fp8(rows),
            ) && batch->Ok_0.len() == n && (n * o_lora <= usize::MAX ==> rows_values(
                batch->Ok_0,
                n,
            ) == n * (o_lora * wo_a.dims[1]))
        }),
    decreases n,
{
    if n > 0 {
        lemma_groups_match(wo_a, scale, o_lora, group_in, npos, n - 1);
        let ins = same_lens(group_in, npos);
        let outs = same_lens(o_lora, npos);
        let start = (n - 1) * o_lora;
        let end = n * o_lora;
        law_several_inputs_share_rows(wo_a, scale, start, end, ins, outs);
        assert(ins[0] == group_in && outs[0] == o_lora);
        let part = fp8_part(wo_a, scale, start, end, group_in as int, o_lora as int);
        assert forall|i: int| 0 <= i < ins.len() implies fp8_part(
            wo_a,
            scale,
            start,
            end,
            #[trigger] ins[i] as int,
            outs[i] as int,
        ) == part by {}
        let batch = batch_groups(wo_a, scale, o_lora, group_in, npos, n);
        if batch is Ok {
            let before = batch_groups(wo_a, scale, o_lora, group_in, npos, n - 1)->Ok_0;
            let rows = part->Ok_0;
            assert(batch->Ok_0 =~= before.push(rows));
            assert(batch->Ok_0.map_values(|rows: Fp8RowsView| GemvView::Fp8(rows))
                =~= before.map_values(|rows: Fp8RowsView| GemvView::Fp8(rows)).push(
                GemvView::Fp8(rows),
            ));
            lemma_rows_prefix(before, batch->Ok_0, n - 1);
            assert(0 <= start && start + o_lora == end) by (nonlinear_arith)
                requires
                    start == (n - 1) * o_lora,
                    end == n * o_lora,
                    n >= 1,
            ;
            assert((n - 1) * (o_lora * wo_a.dims[1]) + o_lora * wo_a.dims[1] == n * (o_lora
                * wo_a.dims[1])) by (nonlinear_arith);
        }
    }
}

proof fn lemma_rows_prefix(a: Seq<Fp8RowsView>, b: Seq<Fp8RowsView>, n: int)
    requires
        n <= a.len(),
        n <= b.len(),
        forall|i: int| 0 <= i < n ==> a[i] == b[i],
    ensures
        rows_values(a, n) == rows_values(b, n),
    decreases n,
{
    if n > 0 {
        lemma_rows_prefix(a, b, n - 1);
    }
}

/// A batch reads what its positions read one by one: where a batch is planned,
/// each position can be taken alone on a cache of the same shape, given the
/// buffers for it, and is taken with the same lengths, norms, sinks and rotation
/// and with the same rows of the same matrices.
pub proof fn law_batch_reads_what_single_reads<T>(
    b: BlockView,
    config: ComputeConfig,
    kv: KvView<T>,
    then: KvView<T>,
    layer_index: int,
    positions: Seq<usize>,
    ys_len: int,
    one_by_one: bool,
    index: int,
    scratch_len: int,
)
    requires
        mla_batch(b, config, kv, layer_index, positions, ys_len, one_by_one) matches Ok(Some(_)),
        mla_buffers(config, mla_dims(config)->Ok_0, scratch_len) is Ok,
        then == (KvView { storage: then.storage, cursor: then.cursor, ..kv }),
        0 <= index < positions.len(),
    ensures
        ({
            let batch = mla_batch(
                b,
                config,
                kv,
                layer_index,
                positions,
                ys_len,
                one_by_one,
            )->Ok_0->0;
            let planned = mla_inputs(
                b,
                config,
                then,
                layer_index,
                positions[index] as int,
                scratch_len,
            );
            let single = planned->Ok_0;
            &&& planned is Ok
            &&& single.dims == batch.dims
            &&& single.q_norm == batch.q_norm
            &&& single.kv_norm == batch.kv_norm
            &&& single.sink == batch.sink
            &&& single.rope_theta_bits == batch.rope_theta_bits
            &&& single.yarn == batch.yarn
            &&& single.wq_a.0 == GemvView::Fp8(batch.wq_a)
            &&& single.wq_b.0 == GemvView::Fp8(batch.wq_b)
            &&& single.wkv.0 == GemvView::Fp8(batch.wkv)
            &&& single.values() == batch.values()
        }),
{
    let dims = mla_dims(config)->Ok_0;
    let m = mla_matrices(b, config, dims)->Ok_0;
    let scales = mla_scales(b, m)->Ok_0;
    let n = positions.len() as int;
    let hidden = config.hidden_size;
    let rank = config.q_lora_rank;
    lemma_needed(b, TensorRole::QProj, hidden, "MLA wq_a missing");
    lemma_needed(b, TensorRole::QProj, rank, "MLA wq_b missing");
    lemma_needed(b, TensorRole::KvProj, hidden, "MLA wkv missing");
    lemma_multi_is_whole(b, m.wq_a, scales.wq_a, hidden, rank, n);
    lemma_multi_is_whole(b, m.wq_b, scales.wq_b, rank, dims.q_full_len, n);
    lemma_multi_is_whole(b, m.wkv, scales.wkv, hidden, dims.head_dim, n);
    lemma_slots(kv, layer_index, positions, 0);
    assert(kv.slot_error(layer_index, positions[index] as int) is None);
}

/// The output projection of a batch goes through the same rows as that of each
/// position, group by group, and can be planned exactly where that can. All in
/// all a batch goes through as many weights as its positions one by one.
pub proof fn law_batch_outputs_match_single<T>(
    b: BlockView,
    config: ComputeConfig,
    kv: KvView<T>,
    layer_index: int,
    positions: Seq<usize>,
    ys_len: int,
    one_by_one: bool,
)
    requires
        mla_batch(b, config, kv, layer_index, positions, ys_len, one_by_one) matches Ok(Some(_)),
    ensures
        ({
            let batch = mla_batch(
                b,
                config,
                kv,
                layer_index,
                positions,
                ys_len,
                one_by_one,
            )->Ok_0->0;
            let npos = positions.len() as int;
            let groups = batch_groups(
                batch.matrices.wo_a,
                batch.wo_a_scale,
                config.o_lora_rank,
                batch.dims.group_in,
                npos,
                config.o_groups as int,
            );
            let wo_b = multi_whole(
                batch.matrices.wo_b,
                batch.wo_b_scale,
                batch.dims.o_mid_len,
                config.hidden_size,
                npos,
            );
            let single = mla_outputs(b, config, batch.dims, config.hidden_size as int);
            &&& single is Ok <==> groups is Ok && wo_b is Ok
            &&& single is Ok ==> {
                &&& single->Ok_0.groups == groups->Ok_0.map_values(
                    |rows: Fp8RowsView| GemvView::Fp8(rows),
                )
                &&& single->Ok_0.wo_b.0 == GemvView::Fp8(wo_b->Ok_0)
                &&& batch_values(batch, groups->Ok_0, wo_b->Ok_0, npos) == npos * (batch.values()
                    + single->Ok_0.values(config.o_lora_rank as int, batch.dims.group_in as int))
            }
        }),
{
    let dims = mla_dims(config)->Ok_0;
    let m = mla_matrices(b, config, dims)->Ok_0;
    let scales = mla_scales(b, m)->Ok_0;
    let n = positions.len() as int;
    lemma_needed(b, TensorRole::OProj, dims.group_in, "MLA wo_a missing");
    lemma_needed(b, TensorRole::OProj, dims.o_mid_len, "MLA wo_b missing");
    lemma_multi_is_whole(b, m.wo_b, scales.wo_b, dims.o_mid_len, config.hidden_size, n);
    lemma_groups_match(
        m.wo_a,
        scales.wo_a,
        config.o_lora_rank,
        dims.group_in,
        n,
        config.o_groups as int,
    );
}

/// Where every position can be taken alone, so can all of them at once: the plan
/// of the batch is there, or says that they are taken one by one.
pub proof fn law_single_success_gives_batch<T>(
    b: BlockView,
    config: ComputeConfig,
    kv: KvView<T>,
    layer_index: int,
    positions: Seq<usize>,
    ys_len: int,
    one_by_one: bool,
    scratch_len: int,
)
    requires
        positions.len() > 0,
        ys_len >= positions.len() * config.hidden_size,
        forall|i: int|
            0 <= i < positions.len() ==> mla_inputs(
                b,
                config,
                kv,
                layer_index,
                #[trigger] positions[i] as int,
                scratch_len,
            ) is Ok,
        mla_outputs(b, config, mla_dims(config)->Ok_0, config.hidden_size as int) is Ok,
    ensures
        mla_batch(b, config, kv, layer_index, positions, ys_len, one_by_one) is Ok,
{
    let dims = mla_dims(config)->Ok_0;
    let m = mla_matrices(b, config, dims)->Ok_0;
    let scales = mla_scales(b, m)->Ok_0;
    let n = positions.len() as int;
    let hidden = config.hidden_size;
    let rank = config.q_lora_rank;
    assert(mla_inputs(b, config, kv, layer_index, positions[0] as int, scratch_len) is Ok);
    assert(mla_matrices(b, config, dims) is Ok);
    if m.all_fp8() {
        lemma_needed(b, TensorRole::QProj, hidden, "MLA wq_a missing");
        lemma_needed(b, TensorRole::QProj, rank, "MLA wq_b missing");
        lemma_needed(b, TensorRole::KvProj, hidden, "MLA wkv missing");
        lemma_needed(b, TensorRole::OProj, dims.group_in, "MLA wo_a missing");
        lemma_multi_is_whole(b, m.wq_a, scales.wq_a, hidden, rank, n);
        lemma_multi_is_whole(b, m.wq_b, scales.wq_b, rank, dims.q_full_len, n);
        lemma_multi_is_whole(b, m.wkv, scales.wkv, hidden, dims.head_dim, n);
        assert forall|i: int| 0 <= i < positions.len() implies kv.slot_error(
            layer_index,
            #[trigger] positions[i] as int,
        ) is None by {
            assert(mla_inputs(b, config, kv, layer_index, positions[i] as int, scratch_len) is Ok);
        }
        lemma_all_slots(kv, layer_index, positions, 0);
    }
}

/// Attention over some positions: the cache, the compressors and the outputs.
#[verifier::ext_equal]
pub struct LatentRun<T, C> {
    pub kv: KvView<T>,
    pub compressors: C,
    pub outputs: Seq<Seq<T>>,
}

/// One more position, taken alone. `latent` gives the key of a position from its
/// input, `feed` what the compressors become and what the position sees of them,
/// and `attend` the output from the input, the raw keys and the compressed rows.
pub open spec fn single_step<T, C>(
    before: LatentRun<T, C>,
    layer_index: int,
    head_dim: int,
    pos: int,
    input: Seq<T>,
    latent: spec_fn(Seq<T>, int) -> Seq<T>,
    feed: spec_fn(C, Seq<T>, int) -> (C, Seq<T>),
    attend: spec_fn(Seq<T>, Seq<Seq<T>>, Seq<T>, int) -> Seq<T>,
) -> LatentRun<T, C> {
    let written = before.kv.with_latent(layer_index, pos, latent(input, pos));
    let (fed, rows) = feed(before.compressors, input, pos);
    LatentRun {
        kv: written,
        compressors: fed,
        outputs: before.outputs.push(
            attend(input, window_keys(written, layer_index, pos, head_dim), rows, pos),
        ),
    }
}

/// The first `n` positions taken one by one.
pub open spec fn taken_singly<T, C>(
    kv: KvView<T>,
    compressors: C,
    layer_index: int,
    head_dim: int,
    positions: Seq<usize>,
    inputs: Seq<Seq<T>>,
    latent: spec_fn(Seq<T>, int) -> Seq<T>,
    feed: spec_fn(C, Seq<T>, int) -> (C, Seq<T>),
    attend: spec_fn(Seq<T>, Seq<Seq<T>>, Seq<T>, int) -> Seq<T>,
    n: int,
) -> LatentRun<T, C>
    decreases n,
{
    if n <= 0 {
        LatentRun { kv, compressors, outputs: Seq::empty() }
    } else {
        single_step(
            taken_singly(
                kv,
                compressors,
                layer_index,
                head_dim,
                positions,
                inputs,
                latent,
                feed,
                attend,
                n - 1,
            ),
            layer_index,
            head_dim,
            positions[n - 1] as int,
            inputs[n - 1],
            latent,
            feed,
            attend,
        )
    }
}

/// The first `n` positions over a cache that holds the keys of all of them.
pub open spec fn attended<T, C>(
    kv: KvView<T>,
    compressors: C,
    layer_index: int,
    head_dim: int,
    positions: Seq<usize>,
    inputs: Seq<Seq<T>>,
    feed: spec_fn(C, Seq<T>, int) -> (C, Seq<T>),
    attend: spec_fn(Seq<T>, Seq<Seq<T>>, Seq<T>, int) -> Seq<T>,
    n: int,
) -> LatentRun<T, C>
    decreases n,
{
    if n <= 0 {
        LatentRun { kv, compressors, outputs: Seq::empty() }
    } else {
        let before = attended(
            kv,
            compressors,
            layer_index,
            head_dim,
            positions,
            inputs,
            feed,
            attend,
            n - 1,
        );
        let pos = positions[n - 1] as int;
        let input = inputs[n - 1];
        let (fed, rows) = feed(before.compressors, input, pos);
        LatentRun {
            kv,
            compressors: fed,
            outputs: before.outputs.push(
                attend(input, window_keys(kv, layer_index, pos, head_dim), rows, pos),
            ),
        }
    }
}

/// All positions at once: first the keys of all of them are written.
pub open spec fn taken_at_once<T, C>(
    kv: KvView<T>,
    compressors: C,
    layer_index: int,
    head_dim: int,
    positions: Seq<usize>,
    inputs: Seq<Seq<T>>,
    latent: spec_fn(Seq<T>, int) -> Seq<T>,
    feed: spec_fn(C, Seq<T>, int) -> (C, Seq<T>),
    attend: spec_fn(Seq<T>, Seq<Seq<T>>, Seq<T>, int) -> Seq<T>,
) -> LatentRun<T, C> {
    let n = positions.len() as int;
    let latents = Seq::new(positions.len(), |i: int| latent(inputs[i], positions[i] as int));
    attended(
        latents_written(kv, layer_index, positions, latents, n),
        compressors,
        layer_index,
        head_dim,
        positions,
        inputs,
        feed,
        attend,
        n,
    )
}

proof fn lemma_runs_agree<T, C>(
    kv: KvView<T>,
    compressors: C,
    layer_index: int,
    head_dim: int,
    positions: Seq<usize>,
    inputs: Seq<Seq<T>>,
    latent: spec_fn(Seq<T>, int) -> Seq<T>,
    feed: spec_fn(C, Seq<T>, int) -> (C, Seq<T>),
    attend: spec_fn(Seq<T>, Seq<Seq<T>>, Seq<T>, int) -> Seq<T>,
    latents: Seq<Seq<T>>,
    n: int,
)
    requires
        kv.wf(),
        kv.storage.len() <= usize::MAX,
        ascend(positions),
        slots_error(kv, layer_index, positions, 0) is None,
        0 <= n <= positions.len(),
        latents == Seq::new(
            positions.len(),
            |i: int| latent(inputs[i], positions[i] as int),
        ),
    ensures
        ({
            let all = latents_written(
                kv,
                layer_index,
                positions,
                latents,
                positions.len() as int,
            );
            let single = taken_singly(
                kv,
                compressors,
                layer_index,
                head_dim,
                positions,
                inputs,
                latent,
                feed,
                attend,
                n,
            );
            let batch = attended(
                all,
                compressors,
                layer_index,
                head_dim,
                positions,
                inputs,
                feed,
                attend,
                n,
            );
            &&& single.kv == latents_written(kv, layer_index, positions, latents, n)
            &&& batch.kv == all
            &&& single.compressors == batch.compressors
            &&& single.outputs == batch.outputs
        }),
    decreases n,
{
    if n > 0 {
        lemma_runs_agree(
            kv,
            compressors,
            layer_index,
            head_dim,
            positions,
            inputs,
            latent,
            feed,
            attend,
            latents,
            n - 1,
        );
        law_batch_window_matches_single(kv, layer_index, positions, latents, n - 1, head_dim);
    }
}

/// Ascending positions at once leave the cache, the compressors and every output
/// exactly as the positions one by one do, whatever the arithmetic of a single
/// position is.
pub proof fn law_batch_leaves_what_single_leaves<T, C>(
    kv: KvView<T>,
    compressors: C,
    layer_index: int,
    head_dim: int,
    positions: Seq<usize>,
    inputs: Seq<Seq<T>>,
    latent: spec_fn(Seq<T>, int) -> Seq<T>,
    feed: spec_fn(C, Seq<T>, int) -> (C, Seq<T>),
    attend: spec_fn(Seq<T>, Seq<Seq<T>>, Seq<T>, int) -> Seq<T>,
)
    requires
        kv.wf(),
        kv.storage.len() <= usize::MAX,
        ascend(positions),
        slots_error(kv, layer_index, positions, 0) is None,
    ensures
        taken_at_once(
            kv,
            compressors,
            layer_index,
            head_dim,
            positions,
            inputs,
            latent,
            feed,
            attend,
        ) == taken_singly(
            kv,
            compressors,
            layer_index,
            head_dim,
            positions,
            inputs,
            latent,
            feed,
            attend,
            positions.len() as int,
        ),
{
    lemma_runs_agree(
        kv,
        compressors,
        layer_index,
        head_dim,
        positions,
        inputs,
        latent,
        feed,
        attend,
        Seq::new(positions.len(), |i: int| latent(inputs[i], positions[i] as int)),
        positions.len() as int,
    );
}

/// A position sees the keys of the latest positions up to its own, at most as many
/// as the window takes, in the order of the positions and its own the last.
pub proof fn law_window_holds_latest_keys<T>(
    kv: KvView<T>,
    layer_index: int,
    token_pos: int,
    head_dim: int,
)
    requires
        0 <= token_pos,
    ensures
        ({
            let keys = window_keys(kv, layer_index, token_pos, head_dim);
            &&& keys.len() == if token_pos + 1 < 128 {
                token_pos + 1
            } else {
                128
            }
            &&& keys.last() == kv.key(layer_index, token_pos).take(head_dim)
            &&& forall|back: int|
                0 <= back < keys.len() ==> #[trigger] keys[keys.len() - 1 - back] == kv.key(
                    layer_index,
                    token_pos - back,
                ).take(head_dim)
        }),
{
    let keys = window_keys(kv, layer_index, token_pos, head_dim);
    assert forall|back: int| 0 <= back < keys.len() implies #[trigger] keys[keys.len() - 1 - back]
        == kv.key(layer_index, token_pos - back).take(head_dim) by {
        assert(window_start_of(token_pos) + (keys.len() - 1 - back) == token_pos - back);
    }
}

/// What a position sees of a key that is written: a key of the last positions up to
/// its own shows up at its place, all others stay, and a key of a later position, of
/// one before the window or of another layer shows up nowhere.
pub proof fn law_window_shows_written_keys<T>(
    kv: KvView<T>,
    layer_index: int,
    token_pos: int,
    written_layer: int,
    written_pos: int,
    latent: Seq<T>,
)
    requires
        kv.wf(),
        kv.storage.len() <= usize::MAX,
        kv.has_slot(layer_index, token_pos),
        kv.has_slot(written_layer, written_pos),
        latent.len() <= kv.vector_len(),
    ensures
        ({
            let n = latent.len() as int;
            let before = window_keys(kv, layer_index, token_pos, n);
            let after = window_keys(
                kv.with_latent(written_layer, written_pos, latent),
                layer_index,
                token_pos,
                n,
            );
            if written_layer == layer_index && token_pos - 128 < written_pos <= token_pos {
                after == before.update(before.len() - 1 - (token_pos - written_pos), latent)
            } else {
                after == before
            }
        }),
{
    let n = latent.len() as int;
    let then = kv.with_latent(written_layer, written_pos, latent);
    let before = window_keys(kv, layer_index, token_pos, n);
    let after = window_keys(then, layer_index, token_pos, n);
    let start = window_start_of(token_pos);
    assert forall|i: int| 0 <= i < after.len() implies #[trigger] after[i] == if written_layer
        == layer_index && start + i == written_pos {
        latent
    } else {
        before[i]
    } by {
        law_latent_is_found(kv, written_layer, written_pos, latent, layer_index, start + i);
    }
    if written_layer == layer_index && token_pos - 128 < written_pos <= token_pos {
        assert(after =~= before.update(before.len() - 1 - (token_pos - written_pos), latent));
    } else {
        assert(after =~= before);
    }
}

/// Every head has a part that is rotated and one that is not, all heads are
/// divided evenly among the groups, and each group gives as many values.
pub proof fn law_heads_are_divided_among_groups(config: ComputeConfig)
    ensures
        mla_dims(config) matches Ok(dims) ==> {
            &&& dims.head_dim == config.qk_nope_head_dim + config.qk_rope_head_dim
            &&& dims.q_full_len == config.num_attention_heads * dims.head_dim
            &&& config.o_groups * dims.group_in == dims.q_full_len
            &&& dims.o_mid_len == config.o_groups * config.o_lora_rank
            &&& config.o_groups > 0 && config.o_lora_rank > 0
        },
{
    if mla_dims(config) is Ok {
        let dims = mla_dims(config)->Ok_0;
        vstd::arithmetic::div_mod::lemma_fundamental_div_mod(
            dims.q_full_len as int,
            config.o_groups as int,
        );
    }
}

/// The scratch holds the low-rank queries, the queries, the latent, what the heads
/// give and what the groups give, one behind the other: each from where the one
/// before it ends, with room for all its values, and all of them fit.
pub proof fn law_scratch_parts_follow_each_other(
    config: ComputeConfig,
    dims: MlaDims,
    scratch_len: int,
)
    ensures
        mla_buffers(config, dims, scratch_len) matches Ok(parts) ==> {
            &&& parts.q_at == config.q_lora_rank
            &&& parts.kv_at - parts.q_at == dims.q_full_len
            &&& parts.attn_out_at - parts.kv_at == dims.head_dim
            &&& parts.o_mid_at - parts.attn_out_at == dims.q_full_len
            &&& parts.required - parts.o_mid_at == dims.o_mid_len
            &&& parts.required <= scratch_len
        },
        mla_buffers(config, dims, scratch_len) is Ok == (config.q_lora_rank + 2 * dims.q_full_len
            + dims.head_dim + dims.o_mid_len <= scratch_len && config.q_lora_rank + 2
            * dims.q_full_len + dims.head_dim + dims.o_mid_len <= usize::MAX),
{
}

/// Which rows a product goes over.
pub open spec fn rows_span(plan: GemvView) -> (int, int) {
    match plan {
        GemvView::Fp8(rows) => (rows.row_start as int, rows.row_end as int),
        GemvView::Bf16(rows) => (rows.row_start as int, rows.row_end as int),
        GemvView::Int4(rows) => (0, rows.rows as int),
    }
}

/// The groups divide the rows of the first output matrix among them: the first
/// starts with its first row, each other where the one before it ends, and each
/// has as many rows as a group gives values.
pub proof fn law_groups_divide_the_rows(
    wo_a: TensorView,
    scale: Option<TensorView>,
    o_lora: int,
    group_in: int,
    n: int,
)
    requires
        0 <= n,
        0 < o_lora,
        wo_a.dims.len() == 2,
    ensures
        group_plans(wo_a, scale, o_lora, group_in, n) matches Ok(groups) ==> {
            &&& groups.len() == n
            &&& n * o_lora <= wo_a.dims[0]
            &&& forall|g: int|
                0 <= g < n ==> rows_span(#[trigger] groups[g]) == (g * o_lora, (g + 1) * o_lora)
            &&& forall|g: int|
                0 <= g < n ==> group_plan(wo_a, scale, o_lora, group_in, g) == Ok::<
                    GemvView,
                    ComputeError,
                >(#[trigger] groups[g])
        },
    decreases n,
{
    if n <= 0 {
        assert(n * o_lora == 0) by (nonlinear_arith)
            requires
                n == 0,
        ;
    } else {
        law_groups_divide_the_rows(wo_a, scale, o_lora, group_in, n - 1);
        if group_plans(wo_a, scale, o_lora, group_in, n) is Ok {
            let groups = group_plans(wo_a, scale, o_lora, group_in, n)->Ok_0;
            let before = group_plans(wo_a, scale, o_lora, group_in, n - 1)->Ok_0;
            assert(groups == before.push(groups.last()));
            let from = (n - 1) * o_lora;
            let to = (n - 1 + 1) * o_lora;
            assert(0 <= from < to) by (nonlinear_arith)
                requires
                    from == (n - 1) * o_lora,
                    to == (n - 1 + 1) * o_lora,
                    n >= 1,
                    o_lora > 0,
            ;
            if let Some(s) = scale {
                crate::compute::gemv::law_fp8_rows_fit(wo_a, s, from, to, group_in, o_lora);
            }
            assert forall|g: int| 0 <= g < n implies rows_span(#[trigger] groups[g]) == (
                g * o_lora,
                (g + 1) * o_lora,
            ) by {
                if g < n - 1 {
                    assert(groups[g] == before[g]);
                }
            }
            assert forall|g: int| 0 <= g < n implies group_plan(wo_a, scale, o_lora, group_in, g)
                == Ok::<GemvView, ComputeError>(#[trigger] groups[g]) by {
                if g < n - 1 {
                    assert(groups[g] == before[g]);
                }
            }
        }
    }
}

/// A matrix that attention needs is the first of its role with as many columns as
/// its input has values.
pub proof fn law_needed_matrices_fit_their_input(
    b: BlockView,
    role: TensorRole,
    cols: usize,
    missing: &'static str,
)
    ensures
        needed_matrix(b, role, cols, missing) matches Ok(t) ==> {
            &&& t.role() == role
            &&& t.dims.len() == 2
            &&& t.dims[1] == cols
            &&& exists|i: int|
                0 <= i < b.count() && #[trigger] b.tensor(i) == Ok::<TensorView, ComputeError>(t)
                    && forall|j: int|
                    0 <= j < i ==> (#[trigger] b.tensor(j)) is Ok && !(b.tensor(j)->Ok_0.role()
                        == role && b.tensor(j)->Ok_0.dims.len() == 2 && b.tensor(j)->Ok_0.dims[1]
                        == cols)
        },
{
    let wanted = |t: TensorView| has_role_and_cols(t, role, cols);
    crate::compute::quant_block::law_search_finds_the_first(b, wanted);
    assert(matrix_in(b, role, cols) == b.first(wanted));
    if needed_matrix(b, role, cols, missing) is Ok {
        let t = needed_matrix(b, role, cols, missing)->Ok_0;
        let i = choose|i: int|
            0 <= i < b.count() && #[trigger] b.tensor(i) == Ok::<TensorView, ComputeError>(t)
                && wanted(t) && b.passes_over(i, wanted);
        assert(b.tensor(i) == Ok::<TensorView, ComputeError>(t));
        assert forall|j: int| 0 <= j < i implies (#[trigger] b.tensor(j)) is Ok && !(b.tensor(
            j,
        )->Ok_0.role() == role && b.tensor(j)->Ok_0.dims.len() == 2 && b.tensor(j)->Ok_0.dims[1]
            == cols) by {
            assert(!wanted(b.tensor(j)->Ok_0));
        }
    }
}

/// A token goes through the two query matrices one after the other, from its
/// values to the low rank and from there to the heads, and through the matrix of
/// the latents; there is a sink for every head, and the cache has a slot.
pub proof fn law_tokens_pass_the_query_matrices<T>(
    b: BlockView,
    config: ComputeConfig,
    kv: KvView<T>,
    layer_index: int,
    token_pos: int,
    scratch_len: int,
)
    ensures
        mla_inputs(b, config, kv, layer_index, token_pos, scratch_len) matches Ok(plan) ==> {
            &&& mla_dims(config) == Ok::<MlaDims, ComputeError>(plan.dims)
            &&& needed_matrix(
                b,
                TensorRole::QProj,
                config.hidden_size,
                "MLA wq_a missing",
            ) matches Ok(wq_a) && gemv_in(
                b,
                wq_a,
                config.hidden_size as int,
                config.q_lora_rank as int,
            ) == Ok::<(GemvView, usize), ComputeError>(plan.wq_a)
            &&& needed_matrix(
                b,
                TensorRole::QProj,
                config.q_lora_rank,
                "MLA wq_b missing",
            ) matches Ok(wq_b) && gemv_in(
                b,
                wq_b,
                config.q_lora_rank as int,
                plan.dims.q_full_len as int,
            ) == Ok::<(GemvView, usize), ComputeError>(plan.wq_b)
            &&& needed_matrix(
                b,
                TensorRole::KvProj,
                config.hidden_size,
                "MLA wkv missing",
            ) matches Ok(wkv) && gemv_in(
                b,
                wkv,
                config.hidden_size as int,
                plan.dims.head_dim as int,
            ) == Ok::<(GemvView, usize), ComputeError>(plan.wkv)
            &&& norm_in(
                b,
                "q_a_layernorm".spec_bytes(),
                config.q_lora_rank as int,
                config.q_lora_rank as int,
            ) == Ok::<Option<NormView>, ComputeError>(plan.q_norm)
            &&& norm_in(
                b,
                "kv_a_layernorm".spec_bytes(),
                plan.dims.head_dim as int,
                plan.dims.head_dim as int,
            ) == Ok::<Option<NormView>, ComputeError>(plan.kv_norm)
            &&& attention_sink(b, config.num_attention_heads) == Ok::<
                Option<Seq<u32>>,
                ComputeError,
            >(plan.sink)
            &&& plan.yarn is Some == (ratio_of(layer_index) > 0)
            &&& kv.num_kv_heads == 1
            &&& plan.dims.head_dim <= kv.head_dim
            &&& kv.slot_error(layer_index, token_pos) is None
        },
{
}

/// What the heads give goes through the two output matrices one after the other,
/// through the first group by group.
pub proof fn law_heads_pass_the_output_matrices(
    b: BlockView,
    config: ComputeConfig,
    dims: MlaDims,
    hidden_len: int,
)
    ensures
        mla_outputs(b, config, dims, hidden_len) matches Ok(plan) ==> {
            &&& needed_matrix(
                b,
                TensorRole::OProj,
                dims.group_in,
                "MLA wo_a missing",
            ) matches Ok(wo_a) && wo_a.dims.len() == 2 && wo_a.dims[0] == dims.o_mid_len && (
            wo_a_scale(b, wo_a) matches Ok(scale) && group_plans(
                wo_a,
                scale,
                config.o_lora_rank as int,
                dims.group_in as int,
                config.o_groups as int,
            ) == Ok::<Seq<GemvView>, ComputeError>(plan.groups))
            &&& needed_matrix(
                b,
                TensorRole::OProj,
                dims.o_mid_len,
                "MLA wo_b missing",
            ) matches Ok(wo_b) && gemv_in(b, wo_b, dims.o_mid_len as int, hidden_len) == Ok::<
                (GemvView, usize),
                ComputeError,
            >(plan.wo_b)
        },
{
}

/// What `read_window` returns: the keys of the positions up to `token_pos`, at most
/// 128 of them, in their order; the last is the key of the position itself.
pub proof fn law_read_window<T: Copy>(
    kv_cache: &KVCache<'_, T>,
    layer_index: usize,
    token_pos: usize,
    head_dim: usize,
    keys: Vec<&[T]>,
)
    requires
        call_ensures(
            read_window::<T>,
            (kv_cache, layer_index, token_pos, head_dim),
            Ok::<Vec<&[T]>, ComputeError>(keys),
        ),
    ensures
        keys@.len() == if token_pos < 128 {
            token_pos + 1
        } else {
            128
        },
        keys@.last()@ == kv_cache@.key(layer_index as int, token_pos as int).take(
            head_dim as int,
        ),
        forall|back: int|
            0 <= back < keys@.len() ==> (#[trigger] keys@[keys@.len() - 1 - back])@
                == kv_cache@.key(layer_index as int, token_pos - back).take(head_dim as int),
{
    let read = window_keys(kv_cache@, layer_index as int, token_pos as int, head_dim as int);
    law_window_holds_latest_keys(
        kv_cache@,
        layer_index as int,
        token_pos as int,
        head_dim as int,
    );
    assert(key_views(keys@) == read);
    assert(keys@.last()@ == key_views(keys@)[keys@.len() - 1]);
    assert forall|back: int| 0 <= back < keys@.len() implies (
    #[trigger] keys@[keys@.len() - 1 - back])@ == kv_cache@.key(
        layer_index as int,
        token_pos - back,
    ).take(head_dim as int) by {
        assert(key_views(keys@)[keys@.len() - 1 - back] == keys@[keys@.len() - 1 - back]@);
        assert(read[read.len() - 1 - back] == kv_cache@.key(
            layer_index as int,
            token_pos - back,
        ).take(head_dim as int));
    }
}

/// Windows of positions in a row overlap but for their ends: the window of the next
/// position has the next position at its end, and from 128 on drops the first.
pub proof fn law_windows_move_on(token_pos: usize, window: (usize, usize), next: (usize, usize))
    requires
        token_pos < usize::MAX - 1,
        call_ensures(sliding_window, (token_pos,), window),
        call_ensures(sliding_window, ((token_pos + 1) as usize,), next),
    ensures
        window.1 == token_pos + 1,
        next.1 == window.1 + 1,
        token_pos < 127 ==> window.0 == 0 && next.0 == 0,
        token_pos >= 127 ==> window.1 - window.0 == 128 && next.0 == window.0 + 1,
{
}

/// The groups of the outputs go over the rows of one matrix in turn, each over as many
/// as a group gives values, and together over all of them.
pub proof fn law_output_groups_cover_the_rows(
    b: BlockView,
    config: ComputeConfig,
    hidden_len: int,
    group: int,
)
    requires
        mla_dims(config) is Ok,
        mla_outputs(b, config, mla_dims(config)->Ok_0, hidden_len) is Ok,
        0 <= group < config.o_groups,
    ensures
        ({
            let dims = mla_dims(config)->Ok_0;
            let groups = mla_outputs(b, config, dims, hidden_len)->Ok_0.groups;
            &&& groups.len() == config.o_groups
            &&& rows_span(groups[group]) == (
                group * config.o_lora_rank,
                (group + 1) * config.o_lora_rank,
            )
            &&& config.o_groups * config.o_lora_rank == dims.o_mid_len
        }),
{
    let dims = mla_dims(config)->Ok_0;
    let wo_a = needed_matrix(b, TensorRole::OProj, dims.group_in, "MLA wo_a missing")->Ok_0;
    let scale = wo_a_scale(b, wo_a)->Ok_0;
    law_heads_are_divided_among_groups(config);
    law_groups_divide_the_rows(
        wo_a,
        scale,
        config.o_lora_rank as int,
        dims.group_in as int,
        config.o_groups as int,
    );
}

} // verus!
