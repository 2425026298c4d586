//! The two halves of a layer with hyper-connections: what each reads, for one
//! position and for several.

use crate::compute::config::ComputeConfig;
use crate::compute::error::ComputeError;
use crate::compute::experts::{plan_shared_expert, SharedPlan};
use crate::compute::hc::{check_hc_post, check_hc_pre};
use crate::compute::layer::plan_moe;
use crate::compute::lookup::{dense_math_profile_from_layout, norm_tensor_by_marker, DenseMathProfile};
use crate::compute::moe::{moe_output, MoeOutput, MoePlan};
use crate::compute::norm::{plan_marked_norm, plan_weighted_rms_norm, NormPlan};
use crate::compute::quant_block::{parse_quant_block, QuantBlockLayout, QuantTensorLayout};
use crate::compute::values::{hc_params_from_layout, HcParams};
use vstd::prelude::*;

verus! {

use crate::compute::error::{agrees, found_agrees};
use crate::compute::experts::{shared_of, SharedView};
use crate::compute::gemv::{Fp8RowsView, GemvView};
use crate::compute::hc::{post_error, pre_error};
use crate::compute::kv_cache::{ascend, KvView};
use crate::compute::layer::moe_of;
use crate::compute::lookup::dense_profile;
use crate::compute::mla::{
    batch_groups, batch_values, law_batch_leaves_what_single_leaves,
    law_batch_outputs_match_single, law_batch_reads_what_single_reads, mla_batch, mla_buffers,
    mla_dims, mla_inputs, mla_outputs, multi_whole, norm_view, single_step, slots_error,
    taken_at_once, taken_singly, LatentRun,
};
use crate::compute::moe::{block_bytes_of, moe_output_of, shared_view, MoeView};
use crate::compute::norm::{marked_norm, norm_in, norm_of, NormView};
use crate::compute::quant_block::{parsed_block, BlockView, TensorView};
use crate::compute::values::{hc_in, HcView};
use vstd::string::StringSliceAdditionalSpecFns;

/// Length of all copies of the hidden state.
pub open spec fn hc_dim_of(config: ComputeConfig) -> Result<usize, ComputeError> {
    if config.hc_mult * config.hidden_size > usize::MAX {
        Err(ComputeError::InvalidShape("mHC dim overflow"))
    } else {
        Ok((config.hc_mult * config.hidden_size) as usize)
    }
}

fn plan_hc_dim(config: &ComputeConfig) -> (result: Result<usize, ComputeError>)
    ensures
        result == hc_dim_of(*config),
{
    match config.hc_mult.checked_mul(config.hidden_size) {
        Some(dim) => Ok(dim),
        None => Err(ComputeError::InvalidShape("mHC dim overflow")),
    }
}

/// The parameters around the attention and around the experts.
pub open spec fn hc_pair(b: BlockView) -> Result<(HcView, HcView), ComputeError> {
    match hc_in(b, "hc_attn".spec_bytes()) {
        Err(error) => Err(error),
        Ok(None) => Err(ComputeError::InvalidShape("mHC hc_attn params missing")),
        Ok(Some(attn)) => match hc_in(b, "hc_ffn".spec_bytes()) {
            Err(error) => Err(error),
            Ok(None) => Err(ComputeError::InvalidShape("mHC hc_ffn params missing")),
            Ok(Some(ffn)) => Ok((attn, ffn)),
        },
    }
}

fn plan_hc_pair<'a>(layout: &QuantBlockLayout<'a>) -> (result: Result<
    (HcParams<'a>, HcParams<'a>),
    ComputeError,
>)
    ensures
        match result {
            Ok(pair) => hc_pair(layout@) == Ok::<(HcView, HcView), ComputeError>(
                (pair.0@, pair.1@),
            ) && pair.0@.wf() && pair.1@.wf(),
            Err(error) => hc_pair(layout@) == Err::<(HcView, HcView), ComputeError>(error),
        },
{
    proof {
        crate::compute::hc::law_hc_params_are_complete(layout@, "hc_attn".spec_bytes());
        crate::compute::hc::law_hc_params_are_complete(layout@, "hc_ffn".spec_bytes());
    }
    let attn = match hc_params_from_layout(layout, "hc_attn")? {
        Some(params) => params,
        None => return Err(ComputeError::InvalidShape("mHC hc_attn params missing")),
    };
    let ffn = match hc_params_from_layout(layout, "hc_ffn")? {
        Some(params) => params,
        None => return Err(ComputeError::InvalidShape("mHC hc_ffn params missing")),
    };
    Ok((attn, ffn))
}

/// What stands before the attention of one position. The copies are followed
/// in the scratch by the working stream and by the attention's own scratch.
pub struct MhcAttention<'a> {
    pub hc_dim: usize,
    pub attention_scratch_len: usize,
    pub hc_attn: HcParams<'a>,
    pub hc_ffn: HcParams<'a>,
    pub norm: Option<NormPlan<'a>>,
}

/// What stands before the attention of one position, as contents.
#[verifier::ext_equal]
pub struct MhcAttentionView {
    pub hc_dim: usize,
    pub attention_scratch_len: usize,
    pub hc_attn: HcView,
    pub hc_ffn: HcView,
    pub norm: Option<NormView>,
}

impl<'a> View for MhcAttention<'a> {
    type V = MhcAttentionView;

    open spec fn view(&self) -> MhcAttentionView {
        MhcAttentionView {
            hc_dim: self.hc_dim,
            attention_scratch_len: self.attention_scratch_len,
            hc_attn: self.hc_attn@,
            hc_ffn: self.hc_ffn@,
            norm: norm_view(self.norm),
        }
    }
}

/// The step before the attention of one position, once the parameters are
/// known.
pub open spec fn mhc_attention_in(
    b: BlockView,
    hc_dim: usize,
    hc_attn: HcView,
    hc_ffn: HcView,
    scratch_len: int,
    config: ComputeConfig,
) -> Result<MhcAttentionView, ComputeError> {
    let hidden = config.hidden_size as int;
    let required = hc_dim + hidden + 1;
    if required > usize::MAX {
        Err(ComputeError::InvalidShape("mHC scratch overflow"))
    } else if scratch_len < required {
        Err(
            ComputeError::ScratchTooSmall {
                required: required as usize,
                actual: scratch_len as usize,
            },
        )
    } else {
        match pre_error(hc_attn, hc_dim as int, hidden, config.hc_mult as int, hidden) {
            Some(error) => Err(error),
            None => match norm_in(b, "input_layernorm".spec_bytes(), hidden, hidden) {
                Err(error) => Err(error),
                Ok(norm) => Ok(
                    MhcAttentionView {
                        hc_dim,
                        attention_scratch_len: (scratch_len - hc_dim - hidden) as usize,
                        hc_attn,
                        hc_ffn,
                        norm,
                    },
                ),
            },
        }
    }
}

/// The step before the attention of one position.
pub open spec fn mhc_attention(
    dense: Seq<u8>,
    hidden_len: int,
    scratch_len: int,
    config: ComputeConfig,
) -> Result<MhcAttentionView, ComputeError> {
    match hc_dim_of(config) {
        Err(error) => Err(error),
        Ok(hc_dim) => if hidden_len < hc_dim {
            Err(ComputeError::InvalidShape("mHC hidden state too small"))
        } else {
            match parsed_block(dense) {
                Err(error) => Err(error),
                Ok(b) => match hc_pair(b) {
                    Err(error) => Err(error),
                    Ok(pair) => mhc_attention_in(b, hc_dim, pair.0, pair.1, scratch_len, config),
                },
            }
        },
    }
}

/// Plans the step before the attention of one position: the copies are reduced
/// to a working stream, which is normed.
pub fn plan_mhc_attention<'a>(
    dense: &'a [u8],
    hidden_len: usize,
    scratch_len: usize,
    config: &ComputeConfig,
) -> (result: Result<MhcAttention<'a>, ComputeError>)
    ensures
        agrees(
            result,
            mhc_attention(dense@, hidden_len as int, scratch_len as int, *config),
        ),
        result matches Ok(plan) ==> plan@.hc_attn.wf() && plan@.hc_ffn.wf(),
{
    let hc_dim: usize = plan_hc_dim(config)?;
    if hidden_len < hc_dim {
        return Err(ComputeError::InvalidShape("mHC hidden state too small"));
    }
    let layout = parse_quant_block(dense)?;
    let (hc_attn, hc_ffn): (HcParams<'a>, HcParams<'a>) = plan_hc_pair(&layout)?;
    let hidden: usize = config.hidden_size;
    let streams: usize = match hc_dim.checked_add(hidden) {
        Some(len) => len,
        None => return Err(ComputeError::InvalidShape("mHC scratch overflow")),
    };
    let required: usize = match streams.checked_add(1) {
        Some(len) => len,
        None => return Err(ComputeError::InvalidShape("mHC scratch overflow")),
    };
    if scratch_len < required {
        return Err(ComputeError::ScratchTooSmall { required, actual: scratch_len });
    }
    match check_hc_pre(&hc_attn, hc_dim, hidden, config.hc_mult, hidden) {
        Some(error) => return Err(error),
        None => {},
    }
    let norm = plan_marked_norm(&layout, "input_layernorm", hidden, hidden)?;
    Ok(
        MhcAttention {
            hc_dim,
            attention_scratch_len: scratch_len - streams,
            hc_attn,
            hc_ffn,
            norm,
        },
    )
}

/// The step before the experts of one position: the norm of the working
/// stream, once the copies are reduced to it again.
pub open spec fn mhc_ffn(dense: Seq<u8>, hc_ffn: HcView, config: ComputeConfig) -> Result<
    Option<NormView>,
    ComputeError,
> {
    let hidden = config.hidden_size as int;
    match hc_dim_of(config) {
        Err(error) => Err(error),
        Ok(hc_dim) => match parsed_block(dense) {
            Err(error) => Err(error),
            Ok(b) => match pre_error(
                hc_ffn,
                hc_dim as int,
                hidden,
                config.hc_mult as int,
                hidden,
            ) {
                Some(error) => Err(error),
                None => norm_in(b, "post_attention_layernorm".spec_bytes(), hidden, hidden),
            },
        },
    }
}

/// Plans the step before the experts of one position.
pub fn plan_mhc_ffn<'a>(dense: &'a [u8], hc_ffn: &HcParams<'_>, config: &ComputeConfig) -> (result:
    Result<Option<NormPlan<'a>>, ComputeError>)
    ensures
        found_agrees(result, mhc_ffn(dense@, hc_ffn@, *config)),
{
    let hc_dim: usize = plan_hc_dim(config)?;
    let hidden: usize = config.hidden_size;
    let layout = parse_quant_block(dense)?;
    match check_hc_pre(hc_ffn, hc_dim, hidden, config.hc_mult, hidden) {
        Some(error) => return Err(error),
        None => {},
    }
    plan_marked_norm(&layout, "post_attention_layernorm", hidden, hidden)
}

/// What stands around the attention of several positions.
pub struct MhcBatch<'a> {
    pub hc_dim: usize,
    pub hc_attn: HcParams<'a>,
    pub hc_ffn: HcParams<'a>,
    pub input_norm: Option<NormPlan<'a>>,
    pub post_norm: Option<QuantTensorLayout<'a>>,
}

/// What stands around the attention of several positions, as contents.
#[verifier::ext_equal]
pub struct MhcBatchView {
    pub hc_dim: usize,
    pub hc_attn: HcView,
    pub hc_ffn: HcView,
    pub input_norm: Option<NormView>,
    pub post_norm: Option<TensorView>,
}

/// A tensor that may be missing.
pub open spec fn tensor_view(tensor: Option<QuantTensorLayout<'_>>) -> Option<TensorView> {
    match tensor {
        Some(tensor) => Some(tensor@),
        None => None,
    }
}

impl<'a> View for MhcBatch<'a> {
    type V = MhcBatchView;

    open spec fn view(&self) -> MhcBatchView {
        MhcBatchView {
            hc_dim: self.hc_dim,
            hc_attn: self.hc_attn@,
            hc_ffn: self.hc_ffn@,
            input_norm: norm_view(self.input_norm),
            post_norm: tensor_view(self.post_norm),
        }
    }
}

/// The norm over the working stream with the weights of `norm`, where there is
/// one.
pub open spec fn stream_norm(norm: Option<TensorView>, hidden: int) -> Result<
    Option<NormView>,
    ComputeError,
> {
    match norm {
        None => Ok(None),
        Some(norm) => match norm_of(norm, hidden, hidden) {
            Err(error) => Err(error),
            Ok(plan) => Ok(Some(plan)),
        },
    }
}

fn plan_stream_norm<'a>(norm: Option<QuantTensorLayout<'a>>, hidden: usize) -> (result: Result<
    Option<NormPlan<'a>>,
    ComputeError,
>)
    ensures
        found_agrees(result, stream_norm(tensor_view(norm), hidden as int)),
{
    match norm {
        None => Ok(None),
        Some(norm) => {
            let plan = plan_weighted_rms_norm(norm, hidden, hidden)?;
            Ok(Some(plan))
        },
    }
}

/// The step before the attention of several positions, once the parameters
/// are known. Without a position nothing is refused here.
pub open spec fn mhc_batch_in(
    b: BlockView,
    npos: int,
    hc_dim: usize,
    hc_attn: HcView,
    hc_ffn: HcView,
    config: ComputeConfig,
) -> Result<MhcBatchView, ComputeError> {
    let hidden = config.hidden_size as int;
    match marked_norm(b, "input_layernorm".spec_bytes()) {
        Err(error) => Err(error),
        Ok(input) => match marked_norm(b, "post_attention_layernorm".spec_bytes()) {
            Err(error) => Err(error),
            Ok(post_norm) => if npos == 0 {
                Ok(MhcBatchView { hc_dim, hc_attn, hc_ffn, input_norm: None, post_norm })
            } else {
                match pre_error(hc_attn, hc_dim as int, hidden, config.hc_mult as int, hidden) {
                    Some(error) => Err(error),
                    None => match stream_norm(input, hidden) {
                        Err(error) => Err(error),
                        Ok(input_norm) => Ok(
                            MhcBatchView { hc_dim, hc_attn, hc_ffn, input_norm, post_norm },
                        ),
                    },
                }
            },
        },
    }
}

/// The step before the attention of several positions.
pub open spec fn mhc_batch(
    dense: Seq<u8>,
    npos: int,
    hiddens_len: int,
    config: ComputeConfig,
) -> Result<MhcBatchView, ComputeError> {
    match hc_dim_of(config) {
        Err(error) => Err(error),
        Ok(hc_dim) => if hiddens_len < npos * hc_dim {
            Err(ComputeError::InvalidShape("mHC batch hidden state too small"))
        } else {
            match parsed_block(dense) {
                Err(error) => Err(error),
                Ok(b) => match hc_pair(b) {
                    Err(error) => Err(error),
                    Ok(pair) => mhc_batch_in(b, npos, hc_dim, pair.0, pair.1, config),
                },
            }
        },
    }
}

/// Plans the step before the attention of several positions.
pub fn plan_mhc_batch<'a>(
    dense: &'a [u8],
    npos: usize,
    hiddens_len: usize,
    config: &ComputeConfig,
) -> (result: Result<MhcBatch<'a>, ComputeError>)
    ensures
        agrees(
            result,
            mhc_batch(dense@, npos as int, hiddens_len as int, *config),
        ),
        result matches Ok(plan) ==> plan@.hc_attn.wf() && plan@.hc_ffn.wf(),
{
    let hc_dim: usize = plan_hc_dim(config)?;
    match npos.checked_mul(hc_dim) {
        Some(len) => if hiddens_len < len {
            return Err(ComputeError::InvalidShape("mHC batch hidden state too small"));
        },
        None => return Err(ComputeError::InvalidShape("mHC batch hidden state too small")),
    }
    let layout = parse_quant_block(dense)?;
    let (hc_attn, hc_ffn): (HcParams<'a>, HcParams<'a>) = plan_hc_pair(&layout)?;
    let hidden: usize = config.hidden_size;
    let input = norm_tensor_by_marker(&layout, "input_layernorm")?;
    let post_norm = norm_tensor_by_marker(&layout, "post_attention_layernorm")?;
    if npos == 0 {
        return Ok(MhcBatch { hc_dim, hc_attn, hc_ffn, input_norm: None, post_norm });
    }
    match check_hc_pre(&hc_attn, hc_dim, hidden, config.hc_mult, hidden) {
        Some(error) => return Err(error),
        None => {},
    }
    let input_norm = plan_stream_norm(input, hidden)?;
    Ok(MhcBatch { hc_dim, hc_attn, hc_ffn, input_norm, post_norm })
}

/// The step before the experts, of each of several positions.
pub open spec fn mhc_batch_ffn(batch: MhcBatchView, config: ComputeConfig) -> Result<
    Option<NormView>,
    ComputeError,
> {
    let hidden = config.hidden_size as int;
    match pre_error(
        batch.hc_ffn,
        batch.hc_dim as int,
        hidden,
        config.hc_mult as int,
        hidden,
    ) {
        Some(error) => Err(error),
        None => stream_norm(batch.post_norm, hidden),
    }
}

/// Plans the step before the experts, of each of several positions.
pub fn plan_mhc_batch_ffn<'a>(batch: &MhcBatch<'a>, config: &ComputeConfig) -> (result: Result<
    Option<NormPlan<'a>>,
    ComputeError,
>)
    ensures
        found_agrees(result, mhc_batch_ffn(batch@, *config)),
{
    let hidden: usize = config.hidden_size;
    match check_hc_pre(&batch.hc_ffn, batch.hc_dim, hidden, config.hc_mult, hidden) {
        Some(error) => return Err(error),
        None => {},
    }
    plan_stream_norm(batch.post_norm, hidden)
}

/// A batch computes each position as a single position is computed: with the
/// same parameters and the same norms.
pub proof fn law_batch_matches_single(
    dense: Seq<u8>,
    npos: int,
    hiddens_len: int,
    hidden_len: int,
    scratch_len: int,
    config: ComputeConfig,
)
    requires
        npos > 0,
        mhc_batch(dense, npos, hiddens_len, config) is Ok,
        mhc_attention(dense, hidden_len, scratch_len, config) is Ok,
    ensures
        ({
            let batch = mhc_batch(dense, npos, hiddens_len, config)->Ok_0;
            let single = mhc_attention(dense, hidden_len, scratch_len, config)->Ok_0;
            &&& batch.hc_dim == single.hc_dim
            &&& batch.hc_attn == single.hc_attn
            &&& batch.hc_ffn == single.hc_ffn
            &&& batch.input_norm == single.norm
            &&& mhc_batch_ffn(batch, config) == mhc_ffn(dense, single.hc_ffn, config)
        }),
{
}

/// A batch of a layer is planned as its positions are planned alone: besides the
/// parameters and norms around the attention, the attention itself goes through
/// the same rows, and each position's share of the weights gone through is what it
/// goes through alone.
pub proof fn law_batch_layer_matches_single<T>(
    dense: Seq<u8>,
    config: ComputeConfig,
    kv: KvView<T>,
    then: KvView<T>,
    layer_index: int,
    positions: Seq<usize>,
    hiddens_len: int,
    one_by_one: bool,
    index: int,
    hidden_len: int,
    scratch_len: int,
)
    requires
        positions.len() > 0,
        0 <= index < positions.len(),
        mhc_batch(dense, positions.len() as int, hiddens_len, config) is Ok,
        mhc_attention(dense, hidden_len, scratch_len, config) is Ok,
        mla_batch(
            parsed_block(dense)->Ok_0,
            config,
            kv,
            layer_index,
            positions,
            positions.len() * config.hidden_size,
            one_by_one,
        ) matches Ok(Some(_)),
        mla_buffers(
            config,
            mla_dims(config)->Ok_0,
            mhc_attention(dense, hidden_len, scratch_len, config)->Ok_0.attention_scratch_len
                as int,
        ) is Ok,
        mla_outputs(
            parsed_block(dense)->Ok_0,
            config,
            mla_dims(config)->Ok_0,
            config.hidden_size as int,
        ) is Ok,
        then == (KvView { storage: then.storage, cursor: then.cursor, ..kv }),
    ensures
        ({
            let b = parsed_block(dense)->Ok_0;
            let npos = positions.len() as int;
            let batch = mhc_batch(dense, npos, hiddens_len, config)->Ok_0;
            let single = mhc_attention(dense, hidden_len, scratch_len, config)->Ok_0;
            let attention = mla_batch(
                b,
                config,
                kv,
                layer_index,
                positions,
                positions.len() * config.hidden_size,
                one_by_one,
            )->Ok_0->0;
            let groups = batch_groups(
                attention.matrices.wo_a,
                attention.wo_a_scale,
                config.o_lora_rank,
                attention.dims.group_in,
                npos,
                config.o_groups as int,
            );
            let wo_b = multi_whole(
                attention.matrices.wo_b,
                attention.wo_b_scale,
                attention.dims.o_mid_len,
                config.hidden_size,
                npos,
            );
            let inputs = mla_inputs(
                b,
                config,
                then,
                layer_index,
                positions[index] as int,
                single.attention_scratch_len as int,
            );
            let outputs = mla_outputs(b, config, attention.dims, config.hidden_size as int);
            &&& batch.hc_attn == single.hc_attn
            &&& batch.hc_ffn == single.hc_ffn
            &&& batch.input_norm == single.norm
            &&& mhc_batch_ffn(batch, config) == mhc_ffn(dense, single.hc_ffn, config)
            &&& inputs is Ok && groups is Ok && wo_b is Ok
            &&& inputs->Ok_0.wq_a.0 == GemvView::Fp8(attention.wq_a)
            &&& inputs->Ok_0.wq_b.0 == GemvView::Fp8(attention.wq_b)
            &&& inputs->Ok_0.wkv.0 == GemvView::Fp8(attention.wkv)
            &&& outputs->Ok_0.groups == groups->Ok_0.map_values(
                |rows: Fp8RowsView| GemvView::Fp8(rows),
            )
            &&& outputs->Ok_0.wo_b.0 == GemvView::Fp8(wo_b->Ok_0)
            &&& batch_values(attention, groups->Ok_0, wo_b->Ok_0, npos) / npos
                == inputs->Ok_0.values() + outputs->Ok_0.values(
                config.o_lora_rank as int,
                attention.dims.group_in as int,
            )
        }),
{
    let b = parsed_block(dense)->Ok_0;
    let npos = positions.len() as int;
    let ys_len = positions.len() * config.hidden_size;
    let single = mhc_attention(dense, hidden_len, scratch_len, config)->Ok_0;
    law_batch_matches_single(dense, npos, hiddens_len, hidden_len, scratch_len, config);
    law_batch_reads_what_single_reads(
        b,
        config,
        kv,
        then,
        layer_index,
        positions,
        ys_len,
        one_by_one,
        index,
        single.attention_scratch_len as int,
    );
    law_batch_outputs_match_single(b, config, kv, layer_index, positions, ys_len, one_by_one);
    let attention = mla_batch(b, config, kv, layer_index, positions, ys_len, one_by_one)->Ok_0->0;
    let one = attention.values() + mla_outputs(
        b,
        config,
        attention.dims,
        config.hidden_size as int,
    )->Ok_0.values(config.o_lora_rank as int, attention.dims.group_in as int);
    vstd::arithmetic::div_mod::lemma_div_multiples_vanish(one, npos);
}

/// A layer over some positions up to its experts: the attention, the copies of
/// each position behind it, and what goes to the experts.
#[verifier::ext_equal]
pub struct LayerRun<T, C> {
    pub attention: LatentRun<T, C>,
    pub hiddens: Seq<Seq<T>>,
    pub gate_inputs: Seq<Seq<T>>,
}

/// The first `n` positions of a layer taken one by one. `pre` reduces the copies
/// of a position to the input of the attention, `post` spreads its output over
/// them, and `gate` reduces them to what goes to the experts.
pub open spec fn layer_singly<T, C>(
    kv: KvView<T>,
    compressors: C,
    layer_index: int,
    head_dim: int,
    positions: Seq<usize>,
    hiddens: Seq<Seq<T>>,
    pre: spec_fn(Seq<T>) -> Seq<T>,
    latent: spec_fn(Seq<T>, int) -> Seq<T>,
    feed: spec_fn(C, Seq<T>, int) -> (C, Seq<T>),
    attend: spec_fn(Seq<T>, Seq<Seq<T>>, Seq<T>, int) -> Seq<T>,
    post: spec_fn(Seq<T>, Seq<T>) -> Seq<T>,
    gate: spec_fn(Seq<T>) -> Seq<T>,
    n: int,
) -> LayerRun<T, C>
    decreases n,
{
    if n <= 0 {
        LayerRun {
            attention: LatentRun { kv, compressors, outputs: Seq::empty() },
            hiddens: Seq::empty(),
            gate_inputs: Seq::empty(),
        }
    } else {
        let before = layer_singly(
            kv,
            compressors,
            layer_index,
            head_dim,
            positions,
            hiddens,
            pre,
            latent,
            feed,
            attend,
            post,
            gate,
            n - 1,
        );
        let attention = single_step(
            before.attention,
            layer_index,
            head_dim,
            positions[n - 1] as int,
            pre(hiddens[n - 1]),
            latent,
            feed,
            attend,
        );
        let hidden = post(attention.outputs.last(), hiddens[n - 1]);
        LayerRun {
            attention,
            hiddens: before.hiddens.push(hidden),
            gate_inputs: before.gate_inputs.push(gate(hidden)),
        }
    }
}

/// All positions of a layer at once: the attention over all of them stands between
/// the steps of each.
pub open spec fn layer_at_once<T, C>(
    kv: KvView<T>,
    compressors: C,
    layer_index: int,
    head_dim: int,
    positions: Seq<usize>,
    hiddens: Seq<Seq<T>>,
    pre: spec_fn(Seq<T>) -> Seq<T>,
    latent: spec_fn(Seq<T>, int) -> Seq<T>,
    feed: spec_fn(C, Seq<T>, int) -> (C, Seq<T>),
    attend: spec_fn(Seq<T>, Seq<Seq<T>>, Seq<T>, int) -> Seq<T>,
    post: spec_fn(Seq<T>, Seq<T>) -> Seq<T>,
    gate: spec_fn(Seq<T>) -> Seq<T>,
) -> LayerRun<T, C> {
    let attention = taken_at_once(
        kv,
        compressors,
        layer_index,
        head_dim,
        positions,
        Seq::new(positions.len(), |i: int| pre(hiddens[i])),
        latent,
        feed,
        attend,
    );
    let after = Seq::new(positions.len(), |i: int| post(attention.outputs[i], hiddens[i]));
    LayerRun {
        attention,
        hiddens: after,
        gate_inputs: Seq::new(positions.len(), |i: int| gate(after[i])),
    }
}

proof fn lemma_layer_runs<T, C>(
    kv: KvView<T>,
    compressors: C,
    layer_index: int,
    head_dim: int,
    positions: Seq<usize>,
    hiddens: Seq<Seq<T>>,
    pre: spec_fn(Seq<T>) -> Seq<T>,
    latent: spec_fn(Seq<T>, int) -> Seq<T>,
    feed: spec_fn(C, Seq<T>, int) -> (C, Seq<T>),
    attend: spec_fn(Seq<T>, Seq<Seq<T>>, Seq<T>, int) -> Seq<T>,
    post: spec_fn(Seq<T>, Seq<T>) -> Seq<T>,
    gate: spec_fn(Seq<T>) -> Seq<T>,
    n: int,
)
    requires
        0 <= n <= positions.len(),
    ensures
        ({
            let run = layer_singly(
                kv,
                compressors,
                layer_index,
                head_dim,
                positions,
                hiddens,
                pre,
                latent,
                feed,
                attend,
                post,
                gate,
                n,
            );
            &&& run.attention == taken_singly(
                kv,
                compressors,
                layer_index,
                head_dim,
                positions,
                Seq::new(positions.len(), |i: int| pre(hiddens[i])),
                latent,
                feed,
                attend,
                n,
            )
            &&& run.attention.outputs.len() == n
            &&& run.hiddens == Seq::new(
                n as nat,
                |i: int| post(run.attention.outputs[i], hiddens[i]),
            )
            &&& run.gate_inputs == Seq::new(n as nat, |i: int| gate(run.hiddens[i]))
        }),
    decreases n,
{
    let run = layer_singly(
        kv,
        compressors,
        layer_index,
        head_dim,
        positions,
        hiddens,
        pre,
        latent,
        feed,
        attend,
        post,
        gate,
        n,
    );
    if n > 0 {
        lemma_layer_runs(
            kv,
            compressors,
            layer_index,
            head_dim,
            positions,
            hiddens,
            pre,
            latent,
            feed,
            attend,
            post,
            gate,
            n - 1,
        );
    }
    assert(run.hiddens =~= Seq::new(
        n as nat,
        |i: int| post(run.attention.outputs[i], hiddens[i]),
    ));
    assert(run.gate_inputs =~= Seq::new(n as nat, |i: int| gate(run.hiddens[i])));
}

/// Ascending positions of a layer at once leave the cache, the compressors, the
/// copies of every position and what goes to the experts exactly as the positions
/// one by one do, whatever the arithmetic of a single position is.
pub proof fn law_batch_layer_leaves_what_single_leaves<T, C>(
    kv: KvView<T>,
    compressors: C,
    layer_index: int,
    head_dim: int,
    positions: Seq<usize>,
    hiddens: Seq<Seq<T>>,
    pre: spec_fn(Seq<T>) -> Seq<T>,
    latent: spec_fn(Seq<T>, int) -> Seq<T>,
    feed: spec_fn(C, Seq<T>, int) -> (C, Seq<T>),
    attend: spec_fn(Seq<T>, Seq<Seq<T>>, Seq<T>, int) -> Seq<T>,
    post: spec_fn(Seq<T>, Seq<T>) -> Seq<T>,
    gate: spec_fn(Seq<T>) -> Seq<T>,
)
    requires
        kv.wf(),
        kv.storage.len() <= usize::MAX,
        ascend(positions),
        slots_error(kv, layer_index, positions, 0) is None,
    ensures
        layer_at_once(
            kv,
            compressors,
            layer_index,
            head_dim,
            positions,
            hiddens,
            pre,
            latent,
            feed,
            attend,
            post,
            gate,
        ) == layer_singly(
            kv,
            compressors,
            layer_index,
            head_dim,
            positions,
            hiddens,
            pre,
            latent,
            feed,
            attend,
            post,
            gate,
            positions.len() as int,
        ),
{
    lemma_layer_runs(
        kv,
        compressors,
        layer_index,
        head_dim,
        positions,
        hiddens,
        pre,
        latent,
        feed,
        attend,
        post,
        gate,
        positions.len() as int,
    );
    law_batch_leaves_what_single_leaves(
        kv,
        compressors,
        layer_index,
        head_dim,
        positions,
        Seq::new(positions.len(), |i: int| pre(hiddens[i])),
        latent,
        feed,
        attend,
    );
}

/// The share of each of `npos` positions in a count over all of them.
pub fn batch_share(values: usize, npos: usize) -> (share: usize)
    requires
        npos > 0,
    ensures
        share * npos <= values < (share + 1) * npos,
{
    let share: usize = values / npos;
    proof {
        vstd::arithmetic::div_mod::lemma_fundamental_div_mod(values as int, npos as int);
        assert(npos * share == share * npos && (share + 1) * npos == share * npos + npos)
            by (nonlinear_arith);
    }
    share
}

/// Lengths of what the first half hands to the second.
#[derive(Clone, Copy, Debug, PartialEq, Eq, Structural)]
pub struct CarryLens {
    pub gate_input: usize,
    pub post: usize,
    pub comb: usize,
    pub residual: usize,
}

/// Why the output of the experts cannot be spread over the copies.
pub open spec fn carry_error(carry: CarryLens, hc_dim: usize, config: ComputeConfig) -> Option<
    ComputeError,
> {
    post_error(
        carry.gate_input as int,
        carry.residual as int,
        carry.post as int,
        carry.comb as int,
        hc_dim as int,
        config.hc_mult as int,
        config.hidden_size as int,
    )
}

fn check_carry(carry: CarryLens, hc_dim: usize, config: &ComputeConfig) -> (error: Option<
    ComputeError,
>)
    ensures
        error == carry_error(carry, hc_dim, *config),
{
    check_hc_post(
        carry.gate_input,
        carry.residual,
        carry.post,
        carry.comb,
        hc_dim,
        config.hc_mult,
        config.hidden_size,
    )
}

/// The second half of one position.
pub open spec fn mhc_experts(
    dense: Seq<u8>,
    experts: Seq<Seq<u8>>,
    carry: CarryLens,
    scratch_len: int,
    config: ComputeConfig,
) -> Result<MoeView, ComputeError> {
    match hc_dim_of(config) {
        Err(error) => Err(error),
        Ok(hc_dim) => match parsed_block(dense) {
            Err(error) => Err(error),
            Ok(b) => match dense_profile(b) {
                Err(error) => Err(error),
                Ok(profile) => match moe_of(
                    dense,
                    profile.has_shared_expert,
                    experts,
                    carry.gate_input as int,
                    scratch_len,
                    config,
                ) {
                    Err(error) => Err(error),
                    Ok(moe) => match carry_error(carry, hc_dim, config) {
                        Some(error) => Err(error),
                        None => Ok(moe),
                    },
                },
            },
        },
    }
}

/// Plans the second half of one position: the experts on the working stream,
/// which is then spread over the copies.
pub fn plan_mhc_experts<'a>(
    dense: &'a [u8],
    experts: &[&'a [u8]],
    carry: CarryLens,
    scratch_len: usize,
    config: &ComputeConfig,
) -> (result: Result<MoePlan<'a>, ComputeError>)
    ensures
        agrees(
            result,
            mhc_experts(
                dense@,
                block_bytes_of(experts@),
                carry,
                scratch_len as int,
                *config,
            ),
        ),
        result matches Ok(plan) ==> plan@.wf(),
{
    let hc_dim: usize = plan_hc_dim(config)?;
    let layout = parse_quant_block(dense)?;
    let profile: DenseMathProfile = dense_math_profile_from_layout(&layout)?;
    let moe = plan_moe(
        dense,
        profile.has_shared_expert,
        experts,
        carry.gate_input,
        scratch_len,
        config,
    )?;
    match check_carry(carry, hc_dim, config) {
        Some(error) => return Err(error),
        None => {},
    }
    Ok(moe)
}

/// The second half of a position whose routed output is there already: the
/// shared expert, and how the two are put together.
pub struct MhcFinish<'a> {
    pub shared: Option<SharedPlan<'a>>,
    pub output: MoeOutput,
}

/// The second half of a position whose routed output is there, as contents.
pub struct MhcFinishView {
    pub shared: Option<SharedView>,
    pub output: MoeOutput,
}

impl<'a> View for MhcFinish<'a> {
    type V = MhcFinishView;

    open spec fn view(&self) -> MhcFinishView {
        MhcFinishView { shared: shared_view(self.shared), output: self.output }
    }
}

/// The shared expert of a position whose routed output may be there.
pub open spec fn mhc_finish(
    dense: Seq<u8>,
    routed: bool,
    carry: CarryLens,
    scratch_len: int,
    config: ComputeConfig,
) -> Result<MhcFinishView, ComputeError> {
    match hc_dim_of(config) {
        Err(error) => Err(error),
        Ok(hc_dim) => match parsed_block(dense) {
            Err(error) => Err(error),
            Ok(b) => match dense_profile(b) {
                Err(error) => Err(error),
                Ok(profile) => {
                    let found = if profile.has_shared_expert {
                        shared_of(dense, carry.gate_input as int, scratch_len, config)
                    } else {
                        Ok(None)
                    };
                    match found {
                        Err(error) => Err(error),
                        Ok(shared) => match carry_error(carry, hc_dim, config) {
                            Some(error) => Err(error),
                            None => Ok(
                                MhcFinishView {
                                    shared,
                                    output: moe_output_of(routed, shared is Some),
                                },
                            ),
                        },
                    }
                },
            },
        },
    }
}

/// Plans the second half of a position whose routed output may be there.
pub fn plan_mhc_finish<'a>(
    dense: &'a [u8],
    routed: bool,
    carry: CarryLens,
    scratch_len: usize,
    config: &ComputeConfig,
) -> (result: Result<MhcFinish<'a>, ComputeError>)
    ensures
        agrees(
            result,
            mhc_finish(dense@, routed, carry, scratch_len as int, *config),
        ),
        result matches Ok(plan) ==> (plan@.shared matches Some(shared) ==> shared.wf()),
{
    let hc_dim: usize = plan_hc_dim(config)?;
    let layout = parse_quant_block(dense)?;
    let profile: DenseMathProfile = dense_math_profile_from_layout(&layout)?;
    let shared: Option<SharedPlan<'a>> = if profile.has_shared_expert {
        plan_shared_expert(dense, carry.gate_input, scratch_len, config)?
    } else {
        None
    };
    match check_carry(carry, hc_dim, config) {
        Some(error) => return Err(error),
        None => {},
    }
    let output: MoeOutput = moe_output(routed, shared.is_some());
    Ok(MhcFinish { shared, output })
}

/// Each half of a layer mixes the copies by parameters of its own and norms with a
/// norm of its own: attention by those named for attention and the norm in front of
/// it, the experts by those named for them and the norm behind attention. What
/// attention works in is the scratch behind all copies and one token.
pub proof fn law_halves_mix_by_their_own(
    dense: Seq<u8>,
    hidden_len: int,
    scratch_len: int,
    config: ComputeConfig,
)
    requires
        scratch_len <= usize::MAX,
    ensures
        mhc_attention(dense, hidden_len, scratch_len, config) matches Ok(plan) ==> (parsed_block(
            dense,
        ) matches Ok(b) && {
            let hidden = config.hidden_size as int;
            &&& hc_in(b, "hc_attn".spec_bytes()) == Ok::<Option<HcView>, ComputeError>(
                Some(plan.hc_attn),
            )
            &&& hc_in(b, "hc_ffn".spec_bytes()) == Ok::<Option<HcView>, ComputeError>(
                Some(plan.hc_ffn),
            )
            &&& norm_in(b, "input_layernorm".spec_bytes(), hidden, hidden) == Ok::<
                Option<NormView>,
                ComputeError,
            >(plan.norm)
            &&& plan.hc_dim == config.hc_mult * config.hidden_size
            &&& plan.hc_dim <= hidden_len
            &&& plan.attention_scratch_len + plan.hc_dim + hidden == scratch_len
            &&& plan.attention_scratch_len > 0
            &&& plan.hc_attn.hc_dim == plan.hc_dim
        }),
        mhc_attention(dense, hidden_len, scratch_len, config) matches Ok(plan) ==> (mhc_ffn(
            dense,
            plan.hc_ffn,
            config,
        ) matches Ok(norm) ==> (parsed_block(dense) matches Ok(b) && norm_in(
            b,
            "post_attention_layernorm".spec_bytes(),
            config.hidden_size as int,
            config.hidden_size as int,
        ) == Ok::<Option<NormView>, ComputeError>(norm) && plan.hc_ffn.hc_dim == config.hc_mult
            * config.hidden_size)),
{
}

/// A layer is finished with the shared expert where the block has one, and with
/// all the values that were carried over from its first half.
pub proof fn law_layers_finish_with_the_shared_expert(
    dense: Seq<u8>,
    routed: bool,
    carry: CarryLens,
    scratch_len: int,
    config: ComputeConfig,
)
    ensures
        mhc_finish(dense, routed, carry, scratch_len, config) matches Ok(plan) ==> {
            &&& parsed_block(dense) matches Ok(b) && (dense_profile(b) matches Ok(profile) && (
            plan.shared is Some ==> profile.has_shared_expert) && (profile.has_shared_expert
                ==> shared_of(dense, carry.gate_input as int, scratch_len, config) == Ok::<
                Option<SharedView>,
                ComputeError,
            >(plan.shared)))
            &&& routed == (plan.output is Routed || plan.output is RoutedAndShared)
            &&& plan.shared is Some == (plan.output is Shared || plan.output is RoutedAndShared)
            &&& config.hidden_size <= carry.gate_input
            &&& config.hc_mult * config.hidden_size <= carry.residual
            &&& config.hc_mult <= carry.post
            &&& config.hc_mult * config.hc_mult <= carry.comb
        },
{
}

} // verus!
