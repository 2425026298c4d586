//! The draft head: what its input and its output read.

use crate::compute::config::{larger_of, ComputeConfig};
use crate::compute::counts::{add_counts, count_rows};
use crate::compute::error::ComputeError;
use crate::compute::gemv::{plan_gemv, GemvPlan};
use crate::compute::hc::check_hc_head;
use crate::compute::lookup::{
    find_optional_tensor_by_name, norm_tensor_by_marker, tensor_by_name_suffix,
};
use crate::compute::norm::{plan_weighted_rms_norm, NormPlan};
use crate::compute::quant_block::{parse_quant_block, QuantBlockLayout, QuantTensorLayout};
use crate::compute::values::{hc_params_from_layout, HcParams};
use crate::deepseek_v4::QUANT_DEEPSEEK_FP8_E4M3;
use vstd::prelude::*;

verus! {

use crate::compute::config::larger;
use crate::compute::counts::as_count;
use crate::compute::error::agrees;
use crate::compute::gemv::{gemv_in, GemvView};
use crate::compute::hc::head_error;
use crate::compute::lookup::by_suffix;
use crate::compute::norm::{marked_norm, norm_of, NormView};
use crate::compute::quant_block::{parsed_block, BlockView, TensorView};
use crate::compute::values::{hc_in, HcView};
use vstd::string::StringSliceAdditionalSpecFns;

/// A norm and the product behind it. FP8 weights take an input that is rounded
/// to FP8 first.
#[derive(Clone, Copy, Debug)]
pub struct NormedProduct<'a> {
    pub norm: NormPlan<'a>,
    pub product: GemvPlan<'a>,
    pub values: usize,
    pub rounds_input: bool,
}

/// A norm and the product behind it, as contents.
pub struct NormedProductView {
    pub norm: NormView,
    pub product: GemvView,
    pub values: usize,
    pub rounds_input: bool,
}

impl<'a> View for NormedProduct<'a> {
    type V = NormedProductView;

    open spec fn view(&self) -> NormedProductView {
        NormedProductView {
            norm: self.norm@,
            product: self.product@,
            values: self.values,
            rounds_input: self.rounds_input,
        }
    }
}

/// The norm and the product over `hidden` values.
pub open spec fn normed_product(b: BlockView, norm: TensorView, t: TensorView, hidden: int) -> Result<
    NormedProductView,
    ComputeError,
> {
    match norm_of(norm, hidden, hidden) {
        Err(error) => Err(error),
        Ok(norm) => match gemv_in(b, t, hidden, hidden) {
            Err(error) => Err(error),
            Ok(plan) => Ok(
                NormedProductView {
                    norm,
                    product: plan.0,
                    values: plan.1,
                    rounds_input: t.quant_format == QUANT_DEEPSEEK_FP8_E4M3,
                },
            ),
        },
    }
}

fn plan_normed_product<'a>(
    layout: &QuantBlockLayout<'a>,
    norm: QuantTensorLayout<'a>,
    tensor: QuantTensorLayout<'a>,
    hidden: usize,
) -> (result: Result<NormedProduct<'a>, ComputeError>)
    ensures
        agrees(result, normed_product(layout@, norm@, tensor@, hidden as int)),
        result matches Ok(plan) ==> plan@.product.wf(),
{
    let norm = plan_weighted_rms_norm(norm, hidden, hidden)?;
    let (product, values): (GemvPlan<'a>, usize) = plan_gemv(layout, tensor, hidden, hidden)?;
    Ok(
        NormedProduct {
            norm,
            product,
            values,
            rounds_input: tensor.quant_format == QUANT_DEEPSEEK_FP8_E4M3,
        },
    )
}

/// What the input of the draft head reads: the embedding's side is worked out
/// once, the hidden state's side for each of `copies` copies.
#[derive(Clone, Copy, Debug)]
pub struct MtpDraft<'a> {
    pub copies: usize,
    pub embedding: NormedProduct<'a>,
    pub hidden: NormedProduct<'a>,
}

/// What the input of the draft head reads, as contents.
pub struct MtpDraftView {
    pub copies: usize,
    pub embedding: NormedProductView,
    pub hidden: NormedProductView,
}

impl<'a> View for MtpDraft<'a> {
    type V = MtpDraftView;

    open spec fn view(&self) -> MtpDraftView {
        MtpDraftView {
            copies: self.copies,
            embedding: self.embedding@,
            hidden: self.hidden@,
        }
    }
}

impl MtpDraftView {
    /// Number of weights that are gone through.
    pub open spec fn values(self) -> int {
        self.embedding.values + self.copies * self.hidden.values
    }
}

impl<'a> MtpDraft<'a> {
    /// Number of weights that are gone through. `None` where they are too many to
    /// count.
    pub fn values(&self) -> (count: Option<usize>)
        ensures
            count == as_count(self@.values()),
    {
        proof {
            assert(0 <= self.copies * self.hidden.values && self.copies * self.hidden.values
                == self.copies * (1 * self.hidden.values)) by (nonlinear_arith);
        }
        add_counts(
            Some(self.embedding.values),
            count_rows(self.copies, 1, self.hidden.values),
        )
    }
}

/// A tensor that has to be there.
pub open spec fn needed(found: Result<Option<TensorView>, ComputeError>, missing: &'static str) -> Result<
    TensorView,
    ComputeError,
> {
    match found {
        Err(error) => Err(error),
        Ok(None) => Err(ComputeError::InvalidShape(missing)),
        Ok(Some(t)) => Ok(t),
    }
}

/// The two sides of the draft head's input, in a block.
pub open spec fn mtp_sides(b: BlockView, hc: int, scratch_len: int, config: ComputeConfig) -> Result<
    MtpDraftView,
    ComputeError,
> {
    let hidden = config.hidden_size as int;
    match needed(marked_norm(b, "enorm".spec_bytes()), "MTP enorm missing") {
        Err(error) => Err(error),
        Ok(enorm) => match needed(marked_norm(b, "hnorm".spec_bytes()), "MTP hnorm missing") {
            Err(error) => Err(error),
            Ok(hnorm) => match needed(
                by_suffix(b, "e_proj.weight".spec_bytes()),
                "MTP e_proj missing",
            ) {
                Err(error) => Err(error),
                Ok(e_proj) => match needed(
                    by_suffix(b, "h_proj.weight".spec_bytes()),
                    "MTP h_proj missing",
                ) {
                    Err(error) => Err(error),
                    Ok(h_proj) => if 2 * hidden > usize::MAX {
                        Err(ComputeError::InvalidShape("MTP draft scratch overflow"))
                    } else if scratch_len < 2 * hidden {
                        Err(
                            ComputeError::ScratchTooSmall {
                                required: (2 * hidden) as usize,
                                actual: scratch_len as usize,
                            },
                        )
                    } else {
                        match normed_product(b, enorm, e_proj, hidden) {
                            Err(error) => Err(error),
                            Ok(embedding) => match normed_product(b, hnorm, h_proj, hidden) {
                                Err(error) => Err(error),
                                Ok(side) => Ok(
                                    MtpDraftView { copies: hc as usize, embedding, hidden: side },
                                ),
                            },
                        }
                    },
                },
            },
        },
    }
}

/// The input of the draft head.
pub open spec fn mtp_draft(
    dense: Seq<u8>,
    embed_len: int,
    main_len: int,
    out_len: int,
    scratch_len: int,
    config: ComputeConfig,
) -> Result<MtpDraftView, ComputeError> {
    let hc = larger(config.hc_mult as int, 1);
    let hc_dim = hc * config.hidden_size;
    if hc_dim > usize::MAX {
        Err(ComputeError::InvalidShape("MTP hc dim overflow"))
    } else if embed_len < config.hidden_size || main_len < hc_dim || out_len < hc_dim {
        Err(ComputeError::InvalidShape("MTP draft input sizes"))
    } else {
        match parsed_block(dense) {
            Err(error) => Err(error),
            Ok(b) => mtp_sides(b, hc, scratch_len, config),
        }
    }
}

/// Plans the input of the draft head.
pub fn plan_mtp_draft<'a>(
    dense: &'a [u8],
    embed_len: usize,
    main_len: usize,
    out_len: usize,
    scratch_len: usize,
    config: &ComputeConfig,
) -> (result: Result<MtpDraft<'a>, ComputeError>)
    ensures
        agrees(
            result,
            mtp_draft(
                dense@,
                embed_len as int,
                main_len as int,
                out_len as int,
                scratch_len as int,
                *config,
            ),
        ),
        result matches Ok(plan) ==> plan@.embedding.product.wf() && plan@.hidden.product.wf(),
{
    let hc: usize = larger_of(config.hc_mult, 1);
    let hidden: usize = config.hidden_size;
    let hc_dim: usize = match hc.checked_mul(hidden) {
        Some(dim) => dim,
        None => return Err(ComputeError::InvalidShape("MTP hc dim overflow")),
    };
    if embed_len < hidden || main_len < hc_dim || out_len < hc_dim {
        return Err(ComputeError::InvalidShape("MTP draft input sizes"));
    }
    let layout = parse_quant_block(dense)?;
    let enorm = match norm_tensor_by_marker(&layout, "enorm")? {
        Some(norm) => norm,
        None => return Err(ComputeError::InvalidShape("MTP enorm missing")),
    };
    let hnorm = match norm_tensor_by_marker(&layout, "hnorm")? {
        Some(norm) => norm,
        None => return Err(ComputeError::InvalidShape("MTP hnorm missing")),
    };
    let e_proj = match tensor_by_name_suffix(&layout, "e_proj.weight")? {
        Some(tensor) => tensor,
        None => return Err(ComputeError::InvalidShape("MTP e_proj missing")),
    };
    let h_proj = match tensor_by_name_suffix(&layout, "h_proj.weight")? {
        Some(tensor) => tensor,
        None => return Err(ComputeError::InvalidShape("MTP h_proj missing")),
    };
    let required: usize = match hidden.checked_mul(2) {
        Some(required) => required,
        None => return Err(ComputeError::InvalidShape("MTP draft scratch overflow")),
    };
    if scratch_len < required {
        return Err(ComputeError::ScratchTooSmall { required, actual: scratch_len });
    }
    let embedding = plan_normed_product(&layout, enorm, e_proj, hidden)?;
    let side = plan_normed_product(&layout, hnorm, h_proj, hidden)?;
    Ok(MtpDraft { copies: hc, embedding, hidden: side })
}

/// What the output of the draft head reads: the copies are pooled, and the
/// pooled state is normed.
pub struct MtpHead<'a> {
    pub copies: usize,
    pub params: HcParams<'a>,
    pub norm: NormPlan<'a>,
}

/// What the output of the draft head reads, as contents.
pub struct MtpHeadView {
    pub copies: usize,
    pub params: HcView,
    pub norm: NormView,
}

impl<'a> View for MtpHead<'a> {
    type V = MtpHeadView;

    open spec fn view(&self) -> MtpHeadView {
        MtpHeadView { copies: self.copies, params: self.params@, norm: self.norm@ }
    }
}

/// The output of the draft head, in a block.
pub open spec fn mtp_head_in(
    b: BlockView,
    final_norm_name: Seq<u8>,
    hc: int,
    hidden_len: int,
    pooled_len: int,
    config: ComputeConfig,
) -> Result<MtpHeadView, ComputeError> {
    let hidden = config.hidden_size as int;
    match hc_in(b, "hc_head".spec_bytes()) {
        Err(error) => Err(error),
        Ok(None) => Err(ComputeError::InvalidShape("MTP hc_head params missing")),
        Ok(Some(params)) => if params.scale.len() == 0 {
            Err(ComputeError::InvalidShape("MTP hc_head scale empty"))
        } else {
            match head_error(
                params.fn_data.len() as int,
                params.base.len() as int,
                hidden_len,
                hidden,
                hc,
                hidden,
            ) {
                Some(error) => Err(error),
                None => match needed(
                    b.first(|t: TensorView| t.name == final_norm_name),
                    "MTP final norm missing",
                ) {
                    Err(error) => Err(error),
                    Ok(norm) => match norm_of(norm, hidden, pooled_len) {
                        Err(error) => Err(error),
                        Ok(plan) => Ok(MtpHeadView { copies: hc as usize, params, norm: plan }),
                    },
                },
            }
        },
    }
}

/// The output of the draft head.
pub open spec fn mtp_head(
    dense: Seq<u8>,
    final_norm_name: Seq<u8>,
    hidden_len: int,
    pooled_len: int,
    config: ComputeConfig,
) -> Result<MtpHeadView, ComputeError> {
    let hc = larger(config.hc_mult as int, 1);
    let hc_dim = hc * config.hidden_size;
    if hc_dim > usize::MAX {
        Err(ComputeError::InvalidShape("MTP hc dim overflow"))
    } else if hidden_len < hc_dim || pooled_len < config.hidden_size {
        Err(ComputeError::InvalidShape("MTP head input sizes"))
    } else {
        match parsed_block(dense) {
            Err(error) => Err(error),
            Ok(b) => mtp_head_in(b, final_norm_name, hc, hidden_len, pooled_len, config),
        }
    }
}

/// Plans the output of the draft head.
pub fn plan_mtp_head<'a>(
    dense: &'a [u8],
    final_norm_name: &str,
    hidden_len: usize,
    pooled_len: usize,
    config: &ComputeConfig,
) -> (result: Result<MtpHead<'a>, ComputeError>)
    ensures
        agrees(
            result,
            mtp_head(
                dense@,
                final_norm_name.spec_bytes(),
                hidden_len as int,
                pooled_len as int,
                *config,
            ),
        ),
        result matches Ok(plan) ==> plan@.params.wf(),
{
    let hc: usize = larger_of(config.hc_mult, 1);
    let hidden: usize = config.hidden_size;
    let hc_dim: usize = match hc.checked_mul(hidden) {
        Some(dim) => dim,
        None => return Err(ComputeError::InvalidShape("MTP hc dim overflow")),
    };
    if hidden_len < hc_dim || pooled_len < hidden {
        return Err(ComputeError::InvalidShape("MTP head input sizes"));
    }
    let layout = parse_quant_block(dense)?;
    proof {
        crate::compute::hc::law_hc_params_are_complete(layout@, "hc_head".spec_bytes());
    }
    let params = match hc_params_from_layout(&layout, "hc_head")? {
        Some(params) => params,
        None => return Err(ComputeError::InvalidShape("MTP hc_head params missing")),
    };
    if params.scale.len() == 0 {
        return Err(ComputeError::InvalidShape("MTP hc_head scale empty"));
    }
    match check_hc_head(
        params.fn_data.len(),
        params.base.len(),
        hidden_len,
        hidden,
        hc,
        hidden,
    ) {
        Some(error) => return Err(error),
        None => {},
    }
    let norm = match find_optional_tensor_by_name(&layout, final_norm_name.as_bytes())? {
        Some(norm) => norm,
        None => return Err(ComputeError::InvalidShape("MTP final norm missing")),
    };
    let norm = plan_weighted_rms_norm(norm, hidden, pooled_len)?;
    Ok(MtpHead { copies: hc, params, norm })
}

/// A draft norms the embedding and each copy of the hidden state with weights of
/// its own and multiplies each with a matrix of its own: the embedding with the
/// norm and the matrix that are named for it, a copy with those named for copies.
pub proof fn law_sides_of_a_draft_keep_their_weights(
    b: BlockView,
    hc: int,
    scratch_len: int,
    config: ComputeConfig,
)
    requires
        0 <= hc <= usize::MAX,
    ensures
        mtp_sides(b, hc, scratch_len, config) matches Ok(draft) ==> {
            let hidden = config.hidden_size as int;
            &&& draft.copies == hc
            &&& marked_norm(b, "enorm".spec_bytes()) matches Ok(Some(norm)) && norm_of(
                norm,
                hidden,
                hidden,
            ) == Ok::<NormView, ComputeError>(draft.embedding.norm)
            &&& by_suffix(b, "e_proj.weight".spec_bytes()) matches Ok(Some(t)) && gemv_in(
                b,
                t,
                hidden,
                hidden,
            ) == Ok::<(GemvView, usize), ComputeError>(
                (draft.embedding.product, draft.embedding.values),
            ) && draft.embedding.rounds_input == (t.quant_format == QUANT_DEEPSEEK_FP8_E4M3)
            &&& marked_norm(b, "hnorm".spec_bytes()) matches Ok(Some(norm)) && norm_of(
                norm,
                hidden,
                hidden,
            ) == Ok::<NormView, ComputeError>(draft.hidden.norm)
            &&& by_suffix(b, "h_proj.weight".spec_bytes()) matches Ok(Some(t)) && gemv_in(
                b,
                t,
                hidden,
                hidden,
            ) == Ok::<(GemvView, usize), ComputeError>(
                (draft.hidden.product, draft.hidden.values),
            ) && draft.hidden.rounds_input == (t.quant_format == QUANT_DEEPSEEK_FP8_E4M3)
            &&& draft.values() == draft.embedding.values + hc * draft.hidden.values
            &&& 2 * hidden <= scratch_len
        },
{
}

/// A draft is made where the embedding is one token long and both states hold
/// all copies; so is the output of it.
pub proof fn law_drafts_need_all_copies(
    dense: Seq<u8>,
    embed_len: int,
    main_len: int,
    out_len: int,
    scratch_len: int,
    config: ComputeConfig,
    final_norm_name: Seq<u8>,
    pooled_len: int,
)
    requires
        config.hc_mult >= 1,
    ensures
        mtp_draft(dense, embed_len, main_len, out_len, scratch_len, config) matches Ok(draft) ==> {
            &&& draft.copies == config.hc_mult
            &&& config.hidden_size <= embed_len
            &&& config.hc_mult * config.hidden_size <= main_len
            &&& config.hc_mult * config.hidden_size <= out_len
        },
        mtp_head(dense, final_norm_name, main_len, pooled_len, config) matches Ok(head) ==> {
            &&& head.copies == config.hc_mult
            &&& config.hc_mult * config.hidden_size <= main_len
            &&& config.hidden_size <= pooled_len
            &&& head.params.scale.len() > 0
            &&& parsed_block(dense) matches Ok(b) && hc_in(b, "hc_head".spec_bytes()) == Ok::<
                Option<HcView>,
                ComputeError,
            >(Some(head.params)) && (b.first(|t: TensorView| t.name == final_norm_name) matches Ok(
                Some(norm),
            ) && norm_of(norm, config.hidden_size as int, pooled_len) == Ok::<
                NormView,
                ComputeError,
            >(head.norm))
        },
{
}

} // verus!
