//! One layer of a model: which steps it takes, what they read, and when a step
//! is refused.

use crate::compute::config::{
    glm52_indexer_bypass_status, smaller_of, AttentionKind, ComputeConfig, LayerComputeStats,
};
use crate::compute::error::ComputeError;
use crate::compute::experts::{plan_plain_product, PlainProduct};
use crate::compute::lookup::{
    dense_math_profile, dense_math_profile_from_layout, is_non_compute_dense_block,
    norm_tensor_by_marker, DenseMathProfile,
};
use crate::compute::moe::{plan_active_and_shared, plan_active_experts, MoePlan};
use crate::compute::norm::{plan_weighted_rms_norm, NormPlan};
use crate::compute::quant_block::parse_quant_block;
use vstd::prelude::*;

verus! {

use crate::compute::config::{smaller, GLM52_INDEX_TOPK};
use crate::compute::error::{agrees, found_agrees};
use crate::compute::experts::{plain_in, PlainView};
use crate::compute::lookup::{dense_profile, non_compute};
use crate::compute::mla::norm_view;
use crate::compute::moe::{active_and_shared, active_experts, block_bytes_of, MoeView};
use crate::compute::norm::{marked_norm, norm_of, NormView};
use crate::compute::quant_block::parsed_block;
use vstd::string::StringSliceAdditionalSpecFns;

/// How a layer is computed.
#[derive(Clone, Copy, Debug, PartialEq, Eq, Structural)]
pub enum LayerStep {
    /// The block holds nothing to compute.
    Skip,
    /// Several copies of the hidden state, mixed around each half.
    HyperConnected,
    /// A residual around each half.
    Residual,
}

/// The step of a layer, and the counters it starts from.
pub open spec fn layer_start(
    dense: Option<Seq<u8>>,
    missing: Seq<bool>,
    config: ComputeConfig,
) -> Result<(LayerStep, LayerComputeStats), ComputeError> {
    match dense {
        None => Err(ComputeError::InvalidPointer("dense_ptr")),
        Some(bytes) => if exists|i: int| 0 <= i < missing.len() && #[trigger] missing[i] {
            Err(ComputeError::InvalidPointer("expert.ptr"))
        } else {
            match parsed_block(bytes) {
                Err(error) => Err(error),
                Ok(b) => match non_compute(b) {
                    Err(error) => Err(error),
                    Ok(skip) => Ok(
                        (
                            if skip {
                                LayerStep::Skip
                            } else if config.attention_kind == AttentionKind::DeepSeekV4Mla
                                && config.hc_mult > 1 {
                                LayerStep::HyperConnected
                            } else {
                                LayerStep::Residual
                            },
                            LayerComputeStats {
                                dense_bytes: bytes.len() as usize,
                                expert_bytes: 0,
                                experts: missing.len() as usize,
                                dequantized_values: 0,
                            },
                        ),
                    ),
                },
            }
        },
    }
}

/// Decides how a layer is computed. `missing` says of each routed expert
/// whether its bytes are missing.
pub fn plan_layer_start(dense: Option<&[u8]>, missing: &[bool], config: &ComputeConfig) -> (result:
    Result<(LayerStep, LayerComputeStats), ComputeError>)
    ensures
        result == layer_start(
            match dense {
                Some(bytes) => Some(bytes@),
                None => None,
            },
            missing@,
            *config,
        ),
{
    let bytes: &[u8] = match dense {
        Some(bytes) => bytes,
        None => return Err(ComputeError::InvalidPointer("dense_ptr")),
    };
    let mut i: usize = 0;
    while i < missing.len()
        invariant
            i <= missing@.len(),
            dense matches Some(_),
            forall|j: int| 0 <= j < i ==> !#[trigger] missing@[j],
        decreases missing@.len() - i,
    {
        if missing[i] {
            return Err(ComputeError::InvalidPointer("expert.ptr"));
        }
        i += 1;
    }
    let skip: bool = is_non_compute_dense_block(bytes)?;
    let stats = LayerComputeStats {
        dense_bytes: bytes.len(),
        expert_bytes: 0,
        experts: missing.len(),
        dequantized_values: 0,
    };
    if skip {
        return Ok((LayerStep::Skip, stats));
    }
    if config.attention_kind == AttentionKind::DeepSeekV4Mla && config.hc_mult > 1 {
        return Ok((LayerStep::HyperConnected, stats));
    }
    Ok((LayerStep::Residual, stats))
}

/// The norm of a dense block that `marker` asks for, over the whole hidden
/// state. It is worked out in scratch of the same length.
pub open spec fn named_norm(
    dense: Seq<u8>,
    marker: Seq<u8>,
    hidden_len: int,
    scratch_len: int,
) -> Result<Option<NormView>, ComputeError> {
    match parsed_block(dense) {
        Err(error) => Err(error),
        Ok(b) => match marked_norm(b, marker) {
            Err(error) => Err(error),
            Ok(None) => Ok(None),
            Ok(Some(norm)) => if scratch_len < hidden_len {
                Err(
                    ComputeError::ScratchTooSmall {
                        required: hidden_len as usize,
                        actual: scratch_len as usize,
                    },
                )
            } else {
                match norm_of(norm, hidden_len, hidden_len) {
                    Err(error) => Err(error),
                    Ok(plan) => Ok(Some(plan)),
                }
            },
        },
    }
}

/// Plans the norm of a dense block that `marker` asks for.
pub fn plan_named_layer_norm<'a>(
    dense: &'a [u8],
    marker: &str,
    hidden_len: usize,
    scratch_len: usize,
) -> (result: Result<Option<NormPlan<'a>>, ComputeError>)
    ensures
        found_agrees(
            result,
            named_norm(dense@, marker.spec_bytes(), hidden_len as int, scratch_len as int),
        ),
{
    let layout = parse_quant_block(dense)?;
    let norm = match norm_tensor_by_marker(&layout, marker)? {
        Some(norm) => norm,
        None => return Ok(None),
    };
    if scratch_len < hidden_len {
        return Err(ComputeError::ScratchTooSmall { required: hidden_len, actual: scratch_len });
    }
    let plan = plan_weighted_rms_norm(norm, hidden_len, hidden_len)?;
    Ok(Some(plan))
}

/// What stands before the attention of a layer: the length of the residual,
/// and the norm.
#[derive(Clone, Copy, Debug)]
pub struct AttentionEntry<'a> {
    pub hidden: usize,
    pub norm: Option<NormPlan<'a>>,
}

/// What stands before the attention of a layer, as contents.
pub struct AttentionEntryView {
    pub hidden: usize,
    pub norm: Option<NormView>,
}

impl<'a> View for AttentionEntry<'a> {
    type V = AttentionEntryView;

    open spec fn view(&self) -> AttentionEntryView {
        AttentionEntryView { hidden: self.hidden, norm: norm_view(self.norm) }
    }
}

/// The residual and the norm before the attention of a layer.
pub open spec fn attention_entry(
    dense: Seq<u8>,
    hidden_len: int,
    scratch_len: int,
    config: ComputeConfig,
) -> Result<AttentionEntryView, ComputeError> {
    let hidden = smaller(hidden_len, config.hidden_size as int);
    if hidden == 0 {
        Err(ComputeError::InvalidShape("hidden_states is empty"))
    } else if hidden + 1 > usize::MAX {
        Err(ComputeError::InvalidShape("attention residual scratch overflow"))
    } else if scratch_len < hidden + 1 {
        Err(
            ComputeError::ScratchTooSmall {
                required: (hidden + 1) as usize,
                actual: scratch_len as usize,
            },
        )
    } else {
        match named_norm(
            dense,
            "input_layernorm".spec_bytes(),
            hidden_len,
            scratch_len - hidden,
        ) {
            Err(error) => Err(error),
            Ok(norm) => Ok(AttentionEntryView { hidden: hidden as usize, norm }),
        }
    }
}

/// Plans the residual and the norm before the attention of a layer. Without a
/// norm the hidden state goes in as it is.
pub fn plan_attention_entry<'a>(
    dense: &'a [u8],
    hidden_len: usize,
    scratch_len: usize,
    config: &ComputeConfig,
) -> (result: Result<AttentionEntry<'a>, ComputeError>)
    ensures
        agrees(
            result,
            attention_entry(dense@, hidden_len as int, scratch_len as int, *config),
        ),
{
    let hidden: usize = smaller_of(hidden_len, config.hidden_size);
    if hidden == 0 {
        return Err(ComputeError::InvalidShape("hidden_states is empty"));
    }
    let required: usize = match hidden.checked_add(1) {
        Some(required) => required,
        None => return Err(ComputeError::InvalidShape("attention residual scratch overflow")),
    };
    if scratch_len < required {
        return Err(ComputeError::ScratchTooSmall { required, actual: scratch_len });
    }
    let norm = plan_named_layer_norm(dense, "input_layernorm", hidden_len, scratch_len - hidden)?;
    Ok(AttentionEntry { hidden, norm })
}

/// Which attention a block calls for.
#[derive(Clone, Copy, Debug)]
pub enum AttentionStep<'a> {
    /// Latent attention.
    Mla,
    /// Low-rank queries and expanded keys and values.
    Probe,
    /// No attention matrices: one product with the hidden state.
    Plain(PlainProduct<'a>),
}

/// Which attention a block calls for, as contents.
pub enum AttentionStepView {
    Mla,
    Probe,
    Plain(PlainView),
}

impl<'a> View for AttentionStep<'a> {
    type V = AttentionStepView;

    open spec fn view(&self) -> AttentionStepView {
        match self {
            AttentionStep::Mla => AttentionStepView::Mla,
            AttentionStep::Probe => AttentionStepView::Probe,
            AttentionStep::Plain(plan) => AttentionStepView::Plain(plan@),
        }
    }
}

/// The attention of a block. Without its indexer a block attends to all
/// positions, which is the same only up to the indexer's limit.
pub open spec fn attention_step(
    dense: Seq<u8>,
    token_pos: int,
    hidden_len: int,
    scratch_len: int,
    config: ComputeConfig,
) -> Result<AttentionStepView, ComputeError> {
    match parsed_block(dense) {
        Err(error) => Err(error),
        Ok(b) => match dense_profile(b) {
            Err(error) => Err(error),
            Ok(profile) => if profile.has_attention {
                if profile.has_indexer && token_pos >= GLM52_INDEX_TOPK {
                    Err(
                        ComputeError::InvalidShape(
                            "GLM-DSA indexer required for context above topk",
                        ),
                    )
                } else if config.attention_kind == AttentionKind::DeepSeekV4Mla {
                    Ok(AttentionStepView::Mla)
                } else {
                    Ok(AttentionStepView::Probe)
                }
            } else {
                match plain_in(b, hidden_len, scratch_len, config) {
                    Err(error) => Err(error),
                    Ok(plan) => Ok(AttentionStepView::Plain(plan)),
                }
            },
        },
    }
}

/// Decides which attention a block calls for.
pub fn plan_attention_block<'a>(
    dense: &'a [u8],
    token_pos: usize,
    hidden_len: usize,
    scratch_len: usize,
    config: &ComputeConfig,
) -> (result: Result<AttentionStep<'a>, ComputeError>)
    ensures
        agrees(
            result,
            attention_step(
                dense@,
                token_pos as int,
                hidden_len as int,
                scratch_len as int,
                *config,
            ),
        ),
        result matches Ok(AttentionStep::Plain(plan)) ==> plan@.product.wf(),
{
    let layout = parse_quant_block(dense)?;
    let profile: DenseMathProfile = dense_math_profile_from_layout(&layout)?;
    if profile.has_attention {
        if profile.has_indexer {
            let (_reason, equivalent): (&'static str, bool) = glm52_indexer_bypass_status(
                token_pos.saturating_add(1),
            );
            if !equivalent {
                return Err(
                    ComputeError::InvalidShape("GLM-DSA indexer required for context above topk"),
                );
            }
        }
        if config.attention_kind == AttentionKind::DeepSeekV4Mla {
            return Ok(AttentionStep::Mla);
        }
        return Ok(AttentionStep::Probe);
    }
    let plan = plan_plain_product(&layout, hidden_len, scratch_len, config)?;
    Ok(AttentionStep::Plain(plan))
}

/// The experts of a layer: with the shared one where the block has one.
pub open spec fn moe_of(
    dense: Seq<u8>,
    has_shared: bool,
    experts: Seq<Seq<u8>>,
    hidden_len: int,
    scratch_len: int,
    config: ComputeConfig,
) -> Result<MoeView, ComputeError> {
    if has_shared {
        active_and_shared(dense, experts, hidden_len, scratch_len, config)
    } else {
        match active_experts(experts, hidden_len, scratch_len, config) {
            Err(error) => Err(error),
            Ok(routed) => Ok(MoeView { routed, shared: None }),
        }
    }
}

/// Plans the experts of a layer.
pub fn plan_moe<'a>(
    dense: &'a [u8],
    has_shared: bool,
    experts: &[&'a [u8]],
    hidden_len: usize,
    scratch_len: usize,
    config: &ComputeConfig,
) -> (result: Result<MoePlan<'a>, ComputeError>)
    ensures
        agrees(
            result,
            moe_of(
                dense@,
                has_shared,
                block_bytes_of(experts@),
                hidden_len as int,
                scratch_len as int,
                *config,
            ),
        ),
        result matches Ok(plan) ==> plan@.wf(),
{
    if has_shared {
        plan_active_and_shared(dense, experts, hidden_len, scratch_len, config)
    } else {
        let routed = plan_active_experts(experts, hidden_len, scratch_len, config)?;
        Ok(MoePlan { routed, shared: None })
    }
}

/// What stands after the attention of a layer.
pub enum MlpPlan<'a> {
    /// A norm without weights.
    NormOnly,
    /// A residual of `hidden` values, a norm and the experts. Without a
    /// weighted norm the hidden state is normed without weights.
    Experts { hidden: usize, norm: Option<NormPlan<'a>>, moe: MoePlan<'a> },
}

/// What stands after the attention of a layer, as contents.
pub enum MlpView {
    NormOnly,
    Experts { hidden: usize, norm: Option<NormView>, moe: MoeView },
}

impl<'a> View for MlpPlan<'a> {
    type V = MlpView;

    open spec fn view(&self) -> MlpView {
        match self {
            MlpPlan::NormOnly => MlpView::NormOnly,
            MlpPlan::Experts { hidden, norm, moe } => MlpView::Experts {
                hidden: *hidden,
                norm: norm_view(*norm),
                moe: moe@,
            },
        }
    }
}

/// The second half of a layer.
pub open spec fn mlp_of(
    dense: Seq<u8>,
    experts: Seq<Seq<u8>>,
    hidden_len: int,
    scratch_len: int,
    config: ComputeConfig,
) -> Result<MlpView, ComputeError> {
    let hidden = smaller(hidden_len, config.hidden_size as int);
    match parsed_block(dense) {
        Err(error) => Err(error),
        Ok(b) => match dense_profile(b) {
            Err(error) => Err(error),
            Ok(profile) => if (profile.has_shared_expert || experts.len() > 0) && hidden > 0 {
                if hidden + 1 > usize::MAX {
                    Err(ComputeError::InvalidShape("MLP residual scratch overflow"))
                } else if scratch_len < hidden + 1 {
                    Err(
                        ComputeError::ScratchTooSmall {
                            required: (hidden + 1) as usize,
                            actual: scratch_len as usize,
                        },
                    )
                } else {
                    let rest = scratch_len - hidden;
                    match named_norm(
                        dense,
                        "post_attention_layernorm".spec_bytes(),
                        hidden_len,
                        rest,
                    ) {
                        Err(error) => Err(error),
                        Ok(norm) => match moe_of(
                            dense,
                            profile.has_shared_expert,
                            experts,
                            hidden_len,
                            rest,
                            config,
                        ) {
                            Err(error) => Err(error),
                            Ok(moe) => Ok(MlpView::Experts { hidden: hidden as usize, norm, moe }),
                        },
                    }
                }
            } else {
                Ok(MlpView::NormOnly)
            },
        },
    }
}

/// Plans the second half of a layer.
pub fn plan_mlp<'a>(
    dense: &'a [u8],
    experts: &[&'a [u8]],
    hidden_len: usize,
    scratch_len: usize,
    config: &ComputeConfig,
) -> (result: Result<MlpPlan<'a>, ComputeError>)
    ensures
        agrees(
            result,
            mlp_of(
                dense@,
                block_bytes_of(experts@),
                hidden_len as int,
                scratch_len as int,
                *config,
            ),
        ),
        result matches Ok(MlpPlan::Experts { hidden, norm, moe }) ==> moe@.wf(),
{
    let hidden: usize = smaller_of(hidden_len, config.hidden_size);
    let profile: DenseMathProfile = dense_math_profile(dense)?;
    if !(profile.has_shared_expert || experts.len() > 0) || hidden == 0 {
        return Ok(MlpPlan::NormOnly);
    }
    let required: usize = match hidden.checked_add(1) {
        Some(required) => required,
        None => return Err(ComputeError::InvalidShape("MLP residual scratch overflow")),
    };
    if scratch_len < required {
        return Err(ComputeError::ScratchTooSmall { required, actual: scratch_len });
    }
    let rest: usize = scratch_len - hidden;
    let norm = plan_named_layer_norm(dense, "post_attention_layernorm", hidden_len, rest)?;
    let moe = plan_moe(dense, profile.has_shared_expert, experts, hidden_len, rest, config)?;
    Ok(MlpPlan::Experts { hidden, norm, moe })
}

/// A layer starts where its block and all its experts are there. It does nothing
/// exactly where no tensor of the block computes, and mixes copies exactly where
/// it attends by latents with more than one copy; the count is of all experts.
pub proof fn law_layers_start_complete(
    dense: Option<Seq<u8>>,
    missing: Seq<bool>,
    config: ComputeConfig,
)
    requires
        dense matches Some(bytes) ==> bytes.len() <= usize::MAX,
        missing.len() <= usize::MAX,
    ensures
        layer_start(dense, missing, config) matches Ok((step, stats)) ==> {
            &&& dense matches Some(bytes) && stats.dense_bytes == bytes.len() && (parsed_block(
                bytes,
            ) matches Ok(b) && non_compute(b) == Ok::<bool, ComputeError>(step is Skip))
            &&& forall|i: int| 0 <= i < missing.len() ==> !#[trigger] missing[i]
            &&& step is HyperConnected ==> config.hc_mult > 1 && config.attention_kind
                == AttentionKind::DeepSeekV4Mla
            &&& step is Residual ==> config.hc_mult <= 1 || config.attention_kind
                != AttentionKind::DeepSeekV4Mla
            &&& stats.experts == missing.len()
            &&& stats.expert_bytes == 0 && stats.dequantized_values == 0
        },
        dense is None ==> layer_start(dense, missing, config) is Err,
{
}

/// Attention norms its input with the norm in front of it and the experts with
/// the norm behind attention, both over the whole hidden state, and both leave
/// room for the residual.
pub proof fn law_halves_have_their_own_norm(
    dense: Seq<u8>,
    experts: Seq<Seq<u8>>,
    hidden_len: int,
    scratch_len: int,
    config: ComputeConfig,
)
    requires
        0 <= hidden_len,
    ensures
        attention_entry(dense, hidden_len, scratch_len, config) matches Ok(entry) ==> {
            &&& entry.hidden == hidden_len || entry.hidden == config.hidden_size
            &&& 0 < entry.hidden <= hidden_len
            &&& entry.hidden <= config.hidden_size
            &&& entry.hidden < scratch_len
            &&& entry.norm matches Some(norm) ==> (parsed_block(dense) matches Ok(b) && (
            marked_norm(b, "input_layernorm".spec_bytes()) matches Ok(Some(t)) && norm_of(
                t,
                hidden_len,
                hidden_len,
            ) == Ok::<NormView, ComputeError>(norm)))
            &&& entry.norm is None ==> (parsed_block(dense) matches Ok(b) && marked_norm(
                b,
                "input_layernorm".spec_bytes(),
            ) == Ok::<Option<crate::compute::quant_block::TensorView>, ComputeError>(None))
        },
        mlp_of(dense, experts, hidden_len, scratch_len, config) matches Ok(
            MlpView::Experts { hidden, norm, moe },
        ) ==> {
            &&& 0 < hidden <= hidden_len
            &&& hidden <= config.hidden_size
            &&& hidden < scratch_len
            &&& parsed_block(dense) matches Ok(b) && (dense_profile(b) matches Ok(profile) && (
            profile.has_shared_expert || experts.len() > 0) && moe_of(
                dense,
                profile.has_shared_expert,
                experts,
                hidden_len,
                scratch_len - hidden,
                config,
            ) == Ok::<MoeView, ComputeError>(moe))
            &&& norm matches Some(plan) ==> (parsed_block(dense) matches Ok(b) && (marked_norm(
                b,
                "post_attention_layernorm".spec_bytes(),
            ) matches Ok(Some(t)) && norm_of(t, hidden_len, hidden_len) == Ok::<
                NormView,
                ComputeError,
            >(plan)))
        },
        mlp_of(dense, experts, hidden_len, scratch_len, config) matches Ok(MlpView::NormOnly) ==> (
        hidden_len == 0 || config.hidden_size == 0 || (experts.len() == 0 && (parsed_block(
            dense,
        ) matches Ok(b) && (dense_profile(b) matches Ok(profile) && !profile.has_shared_expert)))),
{
}

/// How a block attends: by latents or by probes where it has matrices for it, as
/// the configuration says, and with one product otherwise. A block with an
/// indexer is refused past the positions that need none.
pub proof fn law_attention_goes_by_the_block(
    dense: Seq<u8>,
    token_pos: int,
    hidden_len: int,
    scratch_len: int,
    config: ComputeConfig,
)
    ensures
        attention_step(dense, token_pos, hidden_len, scratch_len, config) matches Ok(step) ==> (
        parsed_block(dense) matches Ok(b) && (dense_profile(b) matches Ok(profile) && {
            &&& profile.has_attention == !(step is Plain)
            &&& step is Mla ==> config.attention_kind == AttentionKind::DeepSeekV4Mla
            &&& step is Probe ==> config.attention_kind == AttentionKind::GlmDsaProbe
            &&& profile.has_attention && profile.has_indexer ==> token_pos < 2048
            &&& step matches AttentionStepView::Plain(plan) ==> plain_in(
                b,
                hidden_len,
                scratch_len,
                config,
            ) == Ok::<PlainView, ComputeError>(plan)
        })),
{
}

} // verus!
