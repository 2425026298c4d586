//! Attention with low-rank queries and expanded keys and values: its buffers
//! and projections, what it writes to the cache, and which spans each head
//! reads.

use crate::compute::config::{larger_of, smaller_of, ComputeConfig};
use crate::compute::counts::add_counts;
use crate::compute::error::ComputeError;
use crate::compute::gemv::{plan_gemv, GemvPlan};
use crate::compute::kv_cache::KVCache;
use crate::compute::lookup::tensor_by_role_with_cols;
use crate::compute::norm::{plan_marked_norm, NormPlan};
use crate::compute::quant_block::{QuantBlockLayout, TensorRole};
use crate::compute::rope::{check_rope, check_rope_heads};
use vstd::prelude::*;

verus! {

use crate::compute::config::{larger, saturated, smaller};
use crate::compute::counts::as_count;
use crate::compute::error::{agrees, found_agrees};
use crate::compute::gemv::{gemv_in, GemvView};
use crate::compute::kv_cache::{overlay, KvView};
use crate::compute::mla::{matrix_in, norm_view};
use crate::compute::norm::{norm_in, NormView};
use crate::compute::quant_block::{BlockView, TensorView};
use crate::compute::rope::{rope_error, rope_heads_error};
use vstd::string::StringSliceAdditionalSpecFns;

/// Lengths of the buffers, which follow each other in this order: low-rank
/// queries, queries (later values), latent keys and values with the shared
/// rotated part, and expanded keys and values, which take what is left.
#[derive(Clone, Copy, Debug, PartialEq, Eq, Structural)]
pub struct ProbeDims {
    pub qk_head_dim: usize,
    pub q_full_len: usize,
    pub value_concat_len: usize,
    pub q_or_value_len: usize,
    pub kv_a_len: usize,
    pub kv_full_len: usize,
}

/// The buffers that a configuration calls for.
pub open spec fn probe_dims(config: ComputeConfig, scratch_len: int) -> Result<
    ProbeDims,
    ComputeError,
> {
    let qk_head_dim = config.qk_nope_head_dim + config.qk_rope_head_dim;
    let q_full = config.num_attention_heads * qk_head_dim;
    let value_concat = config.num_kv_heads * config.v_head_dim;
    let q_or_value = larger(q_full, value_concat);
    let kv_a = config.kv_lora_rank + config.qk_rope_head_dim;
    let kv_full = config.num_kv_heads * saturated(config.qk_nope_head_dim + config.v_head_dim);
    let required = config.q_lora_rank + q_or_value + kv_a + kv_full;
    if qk_head_dim > usize::MAX {
        Err(ComputeError::InvalidShape("qk head dim overflow"))
    } else if q_full > usize::MAX {
        Err(ComputeError::InvalidShape("q full size overflow"))
    } else if value_concat > usize::MAX {
        Err(ComputeError::InvalidShape("value concat size overflow"))
    } else if kv_a > usize::MAX {
        Err(ComputeError::InvalidShape("kv_a size overflow"))
    } else if kv_full > usize::MAX {
        Err(ComputeError::InvalidShape("kv full size overflow"))
    } else if required > usize::MAX {
        Err(ComputeError::InvalidShape("attention scratch size overflow"))
    } else if scratch_len < required {
        Err(
            ComputeError::ScratchTooSmall {
                required: required as usize,
                actual: scratch_len as usize,
            },
        )
    } else {
        Ok(
            ProbeDims {
                qk_head_dim: qk_head_dim as usize,
                q_full_len: q_full as usize,
                value_concat_len: value_concat as usize,
                q_or_value_len: q_or_value as usize,
                kv_a_len: kv_a as usize,
                kv_full_len: (scratch_len - config.q_lora_rank - q_or_value - kv_a) as usize,
            },
        )
    }
}

/// Plans the buffers.
pub fn plan_probe_dims(config: &ComputeConfig, scratch_len: usize) -> (result: Result<
    ProbeDims,
    ComputeError,
>)
    ensures
        result == probe_dims(*config, scratch_len as int),
{
    let qk_head_dim: usize = match config.qk_nope_head_dim.checked_add(config.qk_rope_head_dim) {
        Some(dim) => dim,
        None => return Err(ComputeError::InvalidShape("qk head dim overflow")),
    };
    let q_full_len: usize = match config.num_attention_heads.checked_mul(qk_head_dim) {
        Some(len) => len,
        None => return Err(ComputeError::InvalidShape("q full size overflow")),
    };
    let value_concat_len: usize = match config.num_kv_heads.checked_mul(config.v_head_dim) {
        Some(len) => len,
        None => return Err(ComputeError::InvalidShape("value concat size overflow")),
    };
    let q_or_value_len: usize = larger_of(q_full_len, value_concat_len);
    let kv_a_len: usize = match config.kv_lora_rank.checked_add(config.qk_rope_head_dim) {
        Some(len) => len,
        None => return Err(ComputeError::InvalidShape("kv_a size overflow")),
    };
    let stride: usize = config.qk_nope_head_dim.saturating_add(config.v_head_dim);
    let kv_full: usize = match config.num_kv_heads.checked_mul(stride) {
        Some(len) => len,
        None => return Err(ComputeError::InvalidShape("kv full size overflow")),
    };
    let overflow = ComputeError::InvalidShape("attention scratch size overflow");
    let queries: usize = match config.q_lora_rank.checked_add(q_or_value_len) {
        Some(len) => len,
        None => return Err(overflow),
    };
    let latent: usize = match queries.checked_add(kv_a_len) {
        Some(len) => len,
        None => return Err(overflow),
    };
    let required: usize = match latent.checked_add(kv_full) {
        Some(len) => len,
        None => return Err(overflow),
    };
    if scratch_len < required {
        return Err(ComputeError::ScratchTooSmall { required, actual: scratch_len });
    }
    Ok(
        ProbeDims {
            qk_head_dim,
            q_full_len,
            value_concat_len,
            q_or_value_len,
            kv_a_len,
            kv_full_len: scratch_len - latent,
        },
    )
}

/// A product that may be missing, with the number of its weights.
pub open spec fn product_view(product: Option<(GemvPlan<'_>, usize)>) -> Option<(GemvView, usize)> {
    match product {
        Some(plan) => Some((plan.0@, plan.1)),
        None => None,
    }
}

/// Two products, the norm between them, and the numbers of weights.
pub struct LowRank<'a> {
    pub first: GemvPlan<'a>,
    pub first_values: usize,
    pub norm: Option<NormPlan<'a>>,
    pub second: Option<(GemvPlan<'a>, usize)>,
}

/// Two products and the norm between them, as contents.
pub struct LowRankView {
    pub first: GemvView,
    pub first_values: usize,
    pub norm: Option<NormView>,
    pub second: Option<(GemvView, usize)>,
}

impl<'a> View for LowRank<'a> {
    type V = LowRankView;

    open spec fn view(&self) -> LowRankView {
        LowRankView {
            first: self.first@,
            first_values: self.first_values,
            norm: norm_view(self.norm),
            second: product_view(self.second),
        }
    }
}

impl LowRankView {
    /// The rows that are read lie in the data.
    pub open spec fn wf(self) -> bool {
        self.first.wf() && (self.second matches Some(plan) ==> plan.0.wf())
    }

    /// Number of weights that both products go through.
    pub open spec fn values(self) -> int {
        self.first_values + match self.second {
            Some(plan) => plan.1 as int,
            None => 0,
        }
    }
}

impl<'a> LowRank<'a> {
    /// Number of weights that both products go through. `None` where they are too
    /// many to count.
    pub fn values(&self) -> (count: Option<usize>)
        ensures
            count == as_count(self@.values()),
    {
        match &self.second {
            Some(plan) => add_counts(Some(self.first_values), Some(plan.1)),
            None => Some(self.first_values),
        }
    }
}

/// The second product, with the matrix of `role` that takes `cols` values.
pub open spec fn second_product(
    b: BlockView,
    role: TensorRole,
    cols: usize,
    output_len: int,
) -> Result<Option<(GemvView, usize)>, ComputeError> {
    match matrix_in(b, role, cols) {
        Err(error) => Err(error),
        Ok(None) => Ok(None),
        Ok(Some(t)) => match gemv_in(b, t, cols as int, output_len) {
            Err(error) => Err(error),
            Ok(plan) => Ok(Some(plan)),
        },
    }
}

fn plan_second_product<'a>(
    layout: &QuantBlockLayout<'a>,
    role: TensorRole,
    cols: usize,
    output_len: usize,
) -> (result: Result<Option<(GemvPlan<'a>, usize)>, ComputeError>)
    ensures
        match result {
            Ok(plan) => second_product(layout@, role, cols, output_len as int) == Ok::<
                Option<(GemvView, usize)>,
                ComputeError,
            >(product_view(plan)) && (plan matches Some(part) ==> part.0@.wf()),
            Err(error) => second_product(layout@, role, cols, output_len as int) == Err::<
                Option<(GemvView, usize)>,
                ComputeError,
            >(error),
        },
{
    match tensor_by_role_with_cols(layout, role, cols)? {
        None => Ok(None),
        Some(tensor) => {
            let plan = plan_gemv(layout, tensor, cols, output_len)?;
            Ok(Some(plan))
        },
    }
}

/// The query side: the heads are rotated where they are made.
pub open spec fn probe_query(
    b: BlockView,
    config: ComputeConfig,
    dims: ProbeDims,
    hidden_len: int,
) -> Result<Option<LowRankView>, ComputeError> {
    let rank = config.q_lora_rank;
    match matrix_in(b, TensorRole::QProj, config.hidden_size) {
        Err(error) => Err(error),
        Ok(None) => Ok(None),
        Ok(Some(q_a)) => match gemv_in(b, q_a, hidden_len, rank as int) {
            Err(error) => Err(error),
            Ok(first) => match norm_in(b, "q_a_layernorm".spec_bytes(), rank as int, rank as int) {
                Err(error) => Err(error),
                Ok(norm) => match second_product(
                    b,
                    TensorRole::QProj,
                    rank,
                    dims.q_full_len as int,
                ) {
                    Err(error) => Err(error),
                    Ok(second) => {
                        let plan = LowRankView {
                            first: first.0,
                            first_values: first.1,
                            norm,
                            second,
                        };
                        match rope_heads_error(
                            dims.q_full_len as int,
                            config.num_attention_heads as int,
                            dims.qk_head_dim as int,
                            config.qk_nope_head_dim as int,
                            config.qk_rope_head_dim as int,
                            config.rope_theta_bits,
                        ) {
                            Some(error) => if second is Some {
                                Err(error)
                            } else {
                                Ok(Some(plan))
                            },
                            None => Ok(Some(plan)),
                        }
                    },
                },
            },
        },
    }
}

/// Plans the query side.
pub fn plan_probe_query<'a>(
    layout: &QuantBlockLayout<'a>,
    config: &ComputeConfig,
    dims: ProbeDims,
    hidden_len: usize,
) -> (result: Result<Option<LowRank<'a>>, ComputeError>)
    ensures
        found_agrees(result, probe_query(layout@, *config, dims, hidden_len as int)),
        result matches Ok(Some(plan)) ==> plan@.wf(),
{
    let rank: usize = config.q_lora_rank;
    let q_a = match tensor_by_role_with_cols(layout, TensorRole::QProj, config.hidden_size)? {
        Some(tensor) => tensor,
        None => return Ok(None),
    };
    let (first, first_values): (GemvPlan<'a>, usize) = plan_gemv(layout, q_a, hidden_len, rank)?;
    let norm = plan_marked_norm(layout, "q_a_layernorm", rank, rank)?;
    let second = plan_second_product(layout, TensorRole::QProj, rank, dims.q_full_len)?;
    if second.is_some() {
        match check_rope_heads(
            dims.q_full_len,
            config.num_attention_heads,
            dims.qk_head_dim,
            config.qk_nope_head_dim,
            config.qk_rope_head_dim,
            config.rope_theta_bits,
        ) {
            Some(error) => return Err(error),
            None => {},
        }
    }
    Ok(Some(LowRank { first, first_values, norm, second }))
}

/// The key and value side: the shared part is rotated before the expansion.
pub open spec fn probe_kv(
    b: BlockView,
    config: ComputeConfig,
    dims: ProbeDims,
    hidden_len: int,
) -> Result<Option<LowRankView>, ComputeError> {
    let rank = config.kv_lora_rank;
    let rope_dim = config.qk_rope_head_dim as int;
    match matrix_in(b, TensorRole::KvProj, config.hidden_size) {
        Err(error) => Err(error),
        Ok(None) => Ok(None),
        Ok(Some(kv_a)) => match gemv_in(b, kv_a, hidden_len, dims.kv_a_len as int) {
            Err(error) => Err(error),
            Ok(first) => match norm_in(b, "kv_a_layernorm".spec_bytes(), rank as int, rank as int) {
                Err(error) => Err(error),
                Ok(norm) => match rope_error(rope_dim, rope_dim, config.rope_theta_bits) {
                    Some(error) => Err(error),
                    None => match second_product(
                        b,
                        TensorRole::KvProj,
                        rank,
                        dims.kv_full_len as int,
                    ) {
                        Err(error) => Err(error),
                        Ok(second) => Ok(
                            Some(
                                LowRankView { first: first.0, first_values: first.1, norm, second },
                            ),
                        ),
                    },
                },
            },
        },
    }
}

/// Plans the key and value side.
pub fn plan_probe_kv<'a>(
    layout: &QuantBlockLayout<'a>,
    config: &ComputeConfig,
    dims: ProbeDims,
    hidden_len: usize,
) -> (result: Result<Option<LowRank<'a>>, ComputeError>)
    ensures
        found_agrees(result, probe_kv(layout@, *config, dims, hidden_len as int)),
        result matches Ok(Some(plan)) ==> plan@.wf(),
{
    let rank: usize = config.kv_lora_rank;
    let rope_dim: usize = config.qk_rope_head_dim;
    let kv_a = match tensor_by_role_with_cols(layout, TensorRole::KvProj, config.hidden_size)? {
        Some(tensor) => tensor,
        None => return Ok(None),
    };
    let (first, first_values): (GemvPlan<'a>, usize) = plan_gemv(
        layout,
        kv_a,
        hidden_len,
        dims.kv_a_len,
    )?;
    let norm = plan_marked_norm(layout, "kv_a_layernorm", rank, rank)?;
    match check_rope(rope_dim, rope_dim, config.rope_theta_bits) {
        Some(error) => return Err(error),
        None => {},
    }
    let second = plan_second_product(layout, TensorRole::KvProj, rank, dims.kv_full_len)?;
    Ok(Some(LowRank { first, first_values, norm, second }))
}

/// What attention at one position reads before it writes to the cache.
pub struct ProbeInputs<'a> {
    pub dims: ProbeDims,
    pub query: Option<LowRank<'a>>,
    pub kv: Option<LowRank<'a>>,
    /// Are there keys or values to attend to?
    pub attends: bool,
}

/// What attention at one position reads, as contents.
pub struct ProbeInputsView {
    pub dims: ProbeDims,
    pub query: Option<LowRankView>,
    pub kv: Option<LowRankView>,
    pub attends: bool,
}

/// What a side reads, where there is one.
pub open spec fn side_view(side: Option<LowRank<'_>>) -> Option<LowRankView> {
    match side {
        Some(plan) => Some(plan@),
        None => None,
    }
}

impl<'a> View for ProbeInputs<'a> {
    type V = ProbeInputsView;

    open spec fn view(&self) -> ProbeInputsView {
        ProbeInputsView {
            dims: self.dims,
            query: side_view(self.query),
            kv: side_view(self.kv),
            attends: self.attends,
        }
    }
}

/// Number of weights that a side goes through, where there is one.
pub open spec fn side_values(side: Option<LowRankView>) -> int {
    match side {
        Some(plan) => plan.values(),
        None => 0,
    }
}

impl ProbeInputsView {
    /// Number of weights that attention goes through, `output` of them behind it.
    pub open spec fn values(self, output: int) -> int {
        side_values(self.query) + side_values(self.kv) + output
    }
}

fn count_side(side: &Option<LowRank<'_>>) -> (count: Option<usize>)
    ensures
        count == as_count(side_values(side_view(*side))),
        side_values(side_view(*side)) >= 0,
{
    match side {
        Some(plan) => plan.values(),
        None => Some(0),
    }
}

impl<'a> ProbeInputs<'a> {
    /// Number of weights that attention goes through, `output` of them behind it.
    /// `None` where they are too many to count.
    pub fn values(&self, output: usize) -> (count: Option<usize>)
        ensures
            count == as_count(self@.values(output as int)),
    {
        add_counts(add_counts(count_side(&self.query), count_side(&self.kv)), Some(output))
    }
}

/// The first half of attention at one position.
pub open spec fn probe_inputs(
    b: BlockView,
    config: ComputeConfig,
    hidden_len: int,
    scratch_len: int,
) -> Result<ProbeInputsView, ComputeError> {
    match probe_dims(config, scratch_len) {
        Err(error) => Err(error),
        Ok(dims) => match probe_query(b, config, dims, hidden_len) {
            Err(error) => Err(error),
            Ok(query) => match probe_kv(b, config, dims, hidden_len) {
                Err(error) => Err(error),
                Ok(kv) => Ok(
                    ProbeInputsView {
                        dims,
                        query,
                        kv,
                        attends: config.qk_nope_head_dim > 0 || config.v_head_dim > 0,
                    },
                ),
            },
        },
    }
}

/// Plans the first half of attention at one position.
pub fn plan_probe_inputs<'a>(
    layout: &QuantBlockLayout<'a>,
    config: &ComputeConfig,
    hidden_len: usize,
    scratch_len: usize,
) -> (result: Result<ProbeInputs<'a>, ComputeError>)
    ensures
        agrees(
            result,
            probe_inputs(layout@, *config, hidden_len as int, scratch_len as int),
        ),
        result matches Ok(plan) ==> {
            &&& plan@.query matches Some(query) ==> query.wf()
            &&& plan@.kv matches Some(kv) ==> kv.wf()
        },
{
    let dims: ProbeDims = plan_probe_dims(config, scratch_len)?;
    let query = plan_probe_query(layout, config, dims, hidden_len)?;
    let kv = plan_probe_kv(layout, config, dims, hidden_len)?;
    let attends: bool = config.qk_nope_head_dim > 0 || config.v_head_dim > 0;
    Ok(ProbeInputs { dims, query, kv, attends })
}

/// The output projection of attention, where the block has one.
pub open spec fn probe_output(b: BlockView, dims: ProbeDims, hidden_len: int) -> Result<
    Option<(GemvView, usize)>,
    ComputeError,
> {
    second_product(b, TensorRole::OProj, dims.value_concat_len, hidden_len)
}

/// Plans the output projection of attention, where the block has one.
pub fn plan_probe_output<'a>(
    layout: &QuantBlockLayout<'a>,
    dims: ProbeDims,
    hidden_len: usize,
) -> (result: Result<Option<(GemvPlan<'a>, usize)>, ComputeError>)
    ensures
        match result {
            Ok(plan) => probe_output(layout@, dims, hidden_len as int) == Ok::<
                Option<(GemvView, usize)>,
                ComputeError,
            >(product_view(plan)) && (plan matches Some(part) ==> part.0@.wf()),
            Err(error) => probe_output(layout@, dims, hidden_len as int) == Err::<
                Option<(GemvView, usize)>,
                ComputeError,
            >(error),
        },
{
    plan_second_product(layout, TensorRole::OProj, dims.value_concat_len, hidden_len)
}

/// Why the cache cannot hold the keys and values of the configuration, if it
/// cannot.
pub open spec fn append_layout_error<T>(kv: KvView<T>, config: ComputeConfig, kv_a_len: int) -> Option<
    ComputeError,
> {
    let qk_head_dim = config.qk_nope_head_dim + config.qk_rope_head_dim;
    if qk_head_dim > usize::MAX {
        Some(ComputeError::InvalidShape("qk head dim overflow"))
    } else if kv.num_kv_heads != config.num_kv_heads || kv.head_dim < qk_head_dim {
        Some(ComputeError::InvalidShape("KV cache layout does not match attention config"))
    } else if kv.head_dim < config.v_head_dim {
        Some(ComputeError::InvalidShape("KV cache value head dim too small"))
    } else if config.qk_nope_head_dim + config.v_head_dim > usize::MAX {
        Some(ComputeError::InvalidShape("kv head stride overflow"))
    } else if config.kv_lora_rank + config.qk_rope_head_dim > usize::MAX {
        Some(ComputeError::InvalidShape("kv rope span overflow"))
    } else if config.kv_lora_rank + config.qk_rope_head_dim > kv_a_len {
        Some(ComputeError::InvalidShape("kv_a rope span out of range"))
    } else {
        None
    }
}

/// Writing the heads from `from` on: how many heads of the key and of the
/// value are written in the end, and the error that stops the rest.
pub open spec fn written_heads(kv_full_len: int, config: ComputeConfig, from: int) -> (
    int,
    int,
    Option<ComputeError>,
)
    decreases config.num_kv_heads - from,
{
    let nope = config.qk_nope_head_dim as int;
    let stride = nope + config.v_head_dim;
    let start = from * stride;
    if from >= config.num_kv_heads {
        (from, from, None)
    } else if start > usize::MAX {
        (from, from, Some(ComputeError::InvalidShape("kv_full head offset overflow")))
    } else if start + nope > usize::MAX {
        (from, from, Some(ComputeError::InvalidShape("kv_full key end overflow")))
    } else if start + stride > usize::MAX {
        (from, from, Some(ComputeError::InvalidShape("kv_full value end overflow")))
    } else if start + nope > kv_full_len {
        (from, from, Some(ComputeError::InvalidShape("kv_full key span out of range")))
    } else if start + stride > kv_full_len {
        (from + 1, from, Some(ComputeError::InvalidShape("kv_full value span out of range")))
    } else {
        written_heads(kv_full_len, config, from + 1)
    }
}

/// The key of a token once the first `heads` heads are written: the expanded
/// part of each head, then the rotated part that all heads share, then zeros.
pub open spec fn expanded_key<T>(
    kv: KvView<T>,
    config: ComputeConfig,
    kv_a: Seq<T>,
    kv_full: Seq<T>,
    zero: T,
    heads: int,
) -> Seq<T> {
    let nope = config.qk_nope_head_dim as int;
    let rope = config.qk_rope_head_dim as int;
    let stride = nope + config.v_head_dim;
    Seq::new(
        kv.vector_len() as nat,
        |i: int|
            {
                let head = i / kv.head_dim as int;
                let at = i % kv.head_dim as int;
                if head < heads && at < nope {
                    kv_full[head * stride + at]
                } else if head < heads && at < nope + rope {
                    kv_a[config.kv_lora_rank + (at - nope)]
                } else {
                    zero
                }
            },
    )
}

/// The value of a token once the first `heads` heads are written.
pub open spec fn expanded_value<T>(
    kv: KvView<T>,
    config: ComputeConfig,
    kv_full: Seq<T>,
    zero: T,
    heads: int,
) -> Seq<T> {
    let nope = config.qk_nope_head_dim as int;
    let stride = nope + config.v_head_dim;
    Seq::new(
        kv.vector_len() as nat,
        |i: int|
            {
                let head = i / kv.head_dim as int;
                let at = i % kv.head_dim as int;
                if head < heads && at < config.v_head_dim {
                    kv_full[head * stride + nope + at]
                } else {
                    zero
                }
            },
    )
}

proof fn lemma_head_of(i: int, head_dim: int, head: int)
    requires
        0 < head_dim,
        0 <= i,
        0 <= head,
    ensures
        (i / head_dim == head) == (head * head_dim <= i < head * head_dim + head_dim),
        i / head_dim == head ==> i % head_dim == i - head * head_dim,
        0 <= i / head_dim,
        0 <= i % head_dim < head_dim,
{
    vstd::arithmetic::div_mod::lemma_fundamental_div_mod(i, head_dim);
    vstd::arithmetic::mul::lemma_mul_is_commutative(head_dim, i / head_dim);
    vstd::arithmetic::div_mod::lemma_div_pos_is_pos(i, head_dim);
    if head * head_dim <= i < head * head_dim + head_dim {
        vstd::arithmetic::div_mod::lemma_fundamental_div_mod_converse(
            i,
            head_dim,
            head,
            i - head * head_dim,
        );
    }
}

/// Writes `part` over `slot` from `at` on.
fn write_part<T: Copy>(slot: &mut [T], at: usize, part: &[T])
    requires
        at + part@.len() <= old(slot)@.len(),
        old(slot).len() <= usize::MAX,
    ensures
        final(slot)@ == overlay(old(slot)@, at as int, part@),
{
    let ghost before = slot@;
    let mut i: usize = 0;
    while i < part.len()
        invariant
            i <= part@.len(),
            at + part@.len() <= slot@.len(),
            slot@.len() <= usize::MAX,
            slot@ =~= overlay(before, at as int, part@.take(i as int)),
        decreases part@.len() - i,
    {
        slot[at + i] = part[i];
        i += 1;
    }
    proof {
        assert(part@.take(i as int) =~= part@);
    }
}

fn fill_with<T: Copy>(slot: &mut [T], zero: T)
    ensures
        final(slot)@ == Seq::new(old(slot)@.len(), |i: int| zero),
{
    let ghost len = slot@.len();
    let mut i: usize = 0;
    while i < slot.len()
        invariant
            i <= slot@.len(),
            slot@.len() == len,
            forall|j: int| 0 <= j < i ==> slot@[j] == zero,
        decreases slot@.len() - i,
    {
        slot[i] = zero;
        i += 1;
    }
    proof {
        assert(slot@ =~= Seq::new(len, |i: int| zero));
    }
}

proof fn lemma_next_head<T>(
    kv: KvView<T>,
    config: ComputeConfig,
    kv_a: Seq<T>,
    kv_full: Seq<T>,
    zero: T,
    head: int,
)
    requires
        0 <= head < config.num_kv_heads,
        kv.num_kv_heads == config.num_kv_heads,
        config.qk_nope_head_dim + config.qk_rope_head_dim <= kv.head_dim,
        config.v_head_dim <= kv.head_dim,
        config.kv_lora_rank + config.qk_rope_head_dim <= kv_a.len(),
        head * (config.qk_nope_head_dim + config.v_head_dim) + config.qk_nope_head_dim
            <= kv_full.len(),
    ensures
        0 <= head * kv.head_dim,
        0 <= head * (config.qk_nope_head_dim + config.v_head_dim),
        head * kv.head_dim + kv.head_dim <= kv.vector_len(),
        overlay(
            overlay(
                expanded_key(kv, config, kv_a, kv_full, zero, head),
                head * kv.head_dim,
                kv_full.subrange(
                    head * (config.qk_nope_head_dim + config.v_head_dim),
                    head * (config.qk_nope_head_dim + config.v_head_dim) + config.qk_nope_head_dim,
                ),
            ),
            head * kv.head_dim + config.qk_nope_head_dim,
            kv_a.subrange(
                config.kv_lora_rank as int,
                config.kv_lora_rank + config.qk_rope_head_dim,
            ),
        ) == expanded_key(kv, config, kv_a, kv_full, zero, head + 1),
        head * (config.qk_nope_head_dim + config.v_head_dim) + config.qk_nope_head_dim
            + config.v_head_dim <= kv_full.len() ==> overlay(
            expanded_value(kv, config, kv_full, zero, head),
            head * kv.head_dim,
            kv_full.subrange(
                head * (config.qk_nope_head_dim + config.v_head_dim) + config.qk_nope_head_dim,
                head * (config.qk_nope_head_dim + config.v_head_dim) + config.qk_nope_head_dim
                    + config.v_head_dim,
            ),
        ) == expanded_value(kv, config, kv_full, zero, head + 1),
{
    let dim = kv.head_dim as int;
    let stride = config.qk_nope_head_dim + config.v_head_dim;
    assert(head * dim + dim <= kv.num_kv_heads * dim) by (nonlinear_arith)
        requires
            head + 1 <= kv.num_kv_heads,
            0 <= dim,
    ;
    assert(0 <= head * dim) by (nonlinear_arith)
        requires
            0 <= head,
            0 <= dim,
    ;
    assert(0 <= head * stride) by (nonlinear_arith)
        requires
            0 <= head,
            0 <= stride,
    ;
    let key = expanded_key(kv, config, kv_a, kv_full, zero, head);
    let key_next = expanded_key(kv, config, kv_a, kv_full, zero, head + 1);
    let nope_part = kv_full.subrange(head * stride, head * stride + config.qk_nope_head_dim);
    let rope_part = kv_a.subrange(
        config.kv_lora_rank as int,
        config.kv_lora_rank + config.qk_rope_head_dim,
    );
    let written = overlay(
        overlay(key, head * dim, nope_part),
        head * dim + config.qk_nope_head_dim,
        rope_part,
    );
    assert forall|i: int| 0 <= i < kv.vector_len() implies written[i] == key_next[i] by {
        if dim == 0 {
            assert(kv.num_kv_heads * dim == 0) by (nonlinear_arith)
                requires
                    dim == 0,
            ;
        }
        lemma_head_of(i, dim, head);
    }
    assert(written =~= key_next);
    if head * stride + config.qk_nope_head_dim + config.v_head_dim <= kv_full.len() {
        let value = expanded_value(kv, config, kv_full, zero, head);
        let value_next = expanded_value(kv, config, kv_full, zero, head + 1);
        let part = kv_full.subrange(
            head * stride + config.qk_nope_head_dim,
            head * stride + config.qk_nope_head_dim + config.v_head_dim,
        );
        let value_written = overlay(value, head * dim, part);
        assert forall|i: int| 0 <= i < kv.vector_len() implies value_written[i]
            == value_next[i] by {
            if dim == 0 {
                assert(kv.num_kv_heads * dim == 0) by (nonlinear_arith)
                    requires
                        dim == 0,
                ;
            }
            lemma_head_of(i, dim, head);
        }
        assert(value_written =~= value_next);
    }
}

/// Writes the heads of one token into its slots, as far as the expanded keys
/// and values reach.
fn write_heads<T: Copy>(
    key: &mut [T],
    value: &mut [T],
    head_dim: usize,
    config: &ComputeConfig,
    kv_a: &[T],
    kv_full: &[T],
    zero: T,
    Ghost(kv): Ghost<KvView<T>>,
) -> (error: Option<ComputeError>)
    requires
        kv.head_dim == head_dim,
        append_layout_error(kv, *config, kv_a@.len() as int) is None,
        old(key)@.len() == kv.vector_len(),
        old(value)@.len() == kv.vector_len(),
        old(key).len() <= usize::MAX,
    ensures
        error == written_heads(kv_full@.len() as int, *config, 0).2,
        final(key)@ == expanded_key(
            kv,
            *config,
            kv_a@,
            kv_full@,
            zero,
            written_heads(kv_full@.len() as int, *config, 0).0,
        ),
        final(value)@ == expanded_value(
            kv,
            *config,
            kv_full@,
            zero,
            written_heads(kv_full@.len() as int, *config, 0).1,
        ),
{
    let nope: usize = config.qk_nope_head_dim;
    let stride: usize = nope + config.v_head_dim;
    let heads: usize = config.num_kv_heads;
    let rope_start: usize = config.kv_lora_rank;
    let rope: &[T] = &kv_a[rope_start..rope_start + config.qk_rope_head_dim];
    fill_with(key, zero);
    fill_with(value, zero);
    let ghost c = *config;
    let ghost full = kv_full@;
    proof {
        assert forall|i: int| 0 <= i < kv.vector_len() implies key@[i] == expanded_key(
            kv,
            c,
            kv_a@,
            full,
            zero,
            0,
        )[i] && value@[i] == expanded_value(kv, c, full, zero, 0)[i] by {
            if head_dim == 0 {
                assert(kv.num_kv_heads * head_dim == 0) by (nonlinear_arith)
                    requires
                        head_dim == 0,
                ;
            }
            lemma_head_of(i, head_dim as int, 0);
        }
        assert(key@ =~= expanded_key(kv, c, kv_a@, full, zero, 0));
        assert(value@ =~= expanded_value(kv, c, full, zero, 0));
    }
    let mut head: usize = 0;
    while head < heads
        invariant
            head <= heads,
            c == *config,
            full == kv_full@,
            nope == config.qk_nope_head_dim,
            stride == nope + config.v_head_dim,
            heads == config.num_kv_heads,
            rope@ == kv_a@.subrange(
                config.kv_lora_rank as int,
                config.kv_lora_rank + config.qk_rope_head_dim,
            ),
            kv.head_dim == head_dim,
            append_layout_error(kv, c, kv_a@.len() as int) is None,
            kv.vector_len() <= usize::MAX,
            key@ == expanded_key(kv, c, kv_a@, full, zero, head as int),
            value@ == expanded_value(kv, c, full, zero, head as int),
            written_heads(full.len() as int, c, 0) == written_heads(
                full.len() as int,
                c,
                head as int,
            ),
        decreases heads - head,
    {
        let start: usize = match head.checked_mul(stride) {
            Some(start) => start,
            None => return Some(ComputeError::InvalidShape("kv_full head offset overflow")),
        };
        let nope_end: usize = match start.checked_add(nope) {
            Some(end) => end,
            None => return Some(ComputeError::InvalidShape("kv_full key end overflow")),
        };
        let end: usize = match nope_end.checked_add(config.v_head_dim) {
            Some(end) => end,
            None => return Some(ComputeError::InvalidShape("kv_full value end overflow")),
        };
        if nope_end > kv_full.len() {
            return Some(ComputeError::InvalidShape("kv_full key span out of range"));
        }
        proof {
            lemma_next_head(kv, c, kv_a@, full, zero, head as int);
        }
        let out: usize = head * head_dim;
        write_part(key, out, &kv_full[start..nope_end]);
        write_part(key, out + nope, rope);
        if end > kv_full.len() {
            return Some(ComputeError::InvalidShape("kv_full value span out of range"));
        }
        write_part(value, out, &kv_full[nope_end..end]);
        head += 1;
    }
    None
}

/// Writes the key and the value of a token to the cache: each head's expanded
/// part, with the rotated part that all heads share behind each key. Where the
/// expanded keys and values are too short, the heads before stay written.
pub fn append_glm_dsa_kv_cache<T: Copy>(
    layer_index: usize,
    token_pos: usize,
    kv_a: &[T],
    kv_full: &[T],
    zero: T,
    kv_cache: &mut KVCache<'_, T>,
    config: &ComputeConfig,
) -> (result: Result<(), ComputeError>)
    requires
        old(kv_cache)@.wf(),
    ensures
        match append_layout_error(old(kv_cache)@, *config, kv_a@.len() as int) {
            Some(error) => result == Err::<(), ComputeError>(error) && final(kv_cache)@ == old(
                kv_cache,
            )@,
            None => match old(kv_cache)@.slot_error(layer_index as int, token_pos as int) {
                Some(error) => result == Err::<(), ComputeError>(error) && final(kv_cache)@ == old(
                    kv_cache,
                )@,
                None => {
                    let written = written_heads(kv_full@.len() as int, *config, 0);
                    &&& result == match written.2 {
                        Some(error) => Err::<(), ComputeError>(error),
                        None => Ok(()),
                    }
                    &&& final(kv_cache)@ == old(kv_cache)@.with_token(
                        layer_index as int,
                        token_pos as int,
                        expanded_key(old(kv_cache)@, *config, kv_a@, kv_full@, zero, written.0),
                        expanded_value(old(kv_cache)@, *config, kv_full@, zero, written.1),
                    )
                },
            },
        },
{
    match check_append_layout(kv_cache, config, kv_a.len()) {
        Some(error) => return Err(error),
        None => {},
    }
    let (_heads, head_dim): (usize, usize) = kv_cache.head_layout();
    let ghost before = kv_cache@;
    match kv_cache.key_value_slices_mut(layer_index, token_pos) {
        Err(error) => Err(error),
        Ok((key, value)) => {
            match write_heads(key, value, head_dim, config, kv_a, kv_full, zero, Ghost(before)) {
                Some(error) => Err(error),
                None => Ok(()),
            }
        },
    }
}

fn check_append_layout<T: Copy>(
    kv_cache: &KVCache<'_, T>,
    config: &ComputeConfig,
    kv_a_len: usize,
) -> (error: Option<ComputeError>)
    ensures
        error == append_layout_error(kv_cache@, *config, kv_a_len as int),
{
    let qk_head_dim: usize = match config.qk_nope_head_dim.checked_add(config.qk_rope_head_dim) {
        Some(dim) => dim,
        None => return Some(ComputeError::InvalidShape("qk head dim overflow")),
    };
    let (kv_heads, head_dim): (usize, usize) = kv_cache.head_layout();
    if kv_heads != config.num_kv_heads || head_dim < qk_head_dim {
        return Some(
            ComputeError::InvalidShape("KV cache layout does not match attention config"),
        );
    }
    if head_dim < config.v_head_dim {
        return Some(ComputeError::InvalidShape("KV cache value head dim too small"));
    }
    match config.qk_nope_head_dim.checked_add(config.v_head_dim) {
        Some(_) => {},
        None => return Some(ComputeError::InvalidShape("kv head stride overflow")),
    }
    match config.kv_lora_rank.checked_add(config.qk_rope_head_dim) {
        Some(end) => if end > kv_a_len {
            return Some(ComputeError::InvalidShape("kv_a rope span out of range"));
        },
        None => return Some(ComputeError::InvalidShape("kv rope span overflow")),
    }
    None
}

/// Every head of a written key holds its own expanded part and the same
/// rotated part, and every head of the value holds its own expanded part.
pub proof fn law_heads_share_rotated_part<T>(
    kv: KvView<T>,
    config: ComputeConfig,
    kv_a: Seq<T>,
    kv_full: Seq<T>,
    zero: T,
    head: int,
)
    requires
        append_layout_error(kv, config, kv_a.len() as int) is None,
        written_heads(kv_full.len() as int, config, 0).2 is None,
        0 <= head < config.num_kv_heads,
    ensures
        ({
            let nope = config.qk_nope_head_dim as int;
            let rope = config.qk_rope_head_dim as int;
            let stride = nope + config.v_head_dim;
            let at = head * kv.head_dim;
            let key = expanded_key(kv, config, kv_a, kv_full, zero, config.num_kv_heads as int);
            let value = expanded_value(kv, config, kv_full, zero, config.num_kv_heads as int);
            &&& key.subrange(at, at + nope) == kv_full.subrange(
                head * stride,
                head * stride + nope,
            )
            &&& key.subrange(at + nope, at + nope + rope) == kv_a.subrange(
                config.kv_lora_rank as int,
                config.kv_lora_rank + rope,
            )
            &&& value.subrange(at, at + config.v_head_dim) == kv_full.subrange(
                head * stride + nope,
                head * stride + stride,
            )
        }),
{
    let nope = config.qk_nope_head_dim as int;
    let rope = config.qk_rope_head_dim as int;
    let stride = nope + config.v_head_dim;
    let dim = kv.head_dim as int;
    let at = head * dim;
    let key = expanded_key(kv, config, kv_a, kv_full, zero, config.num_kv_heads as int);
    let value = expanded_value(kv, config, kv_full, zero, config.num_kv_heads as int);
    lemma_written_spans(kv_full.len() as int, config, 0, head);
    assert(head * dim + dim <= kv.num_kv_heads * dim && 0 <= head * dim) by (nonlinear_arith)
        requires
            0 <= head,
            head + 1 <= kv.num_kv_heads,
            0 <= dim,
    ;
    assert(0 <= head * stride) by (nonlinear_arith)
        requires
            0 <= head,
            0 <= stride,
    ;
    let key_nope = key.subrange(at, at + nope);
    let full_nope = kv_full.subrange(head * stride, head * stride + nope);
    assert forall|d: int| 0 <= d < nope implies #[trigger] key_nope[d] == full_nope[d] by {
        lemma_head_of(at + d, dim, head);
    }
    assert(key_nope =~= full_nope);
    let key_rope = key.subrange(at + nope, at + nope + rope);
    let shared = kv_a.subrange(config.kv_lora_rank as int, config.kv_lora_rank + rope);
    assert forall|d: int| 0 <= d < rope implies #[trigger] key_rope[d] == shared[d] by {
        lemma_head_of(at + nope + d, dim, head);
    }
    assert(key_rope =~= shared);
    let value_part = value.subrange(at, at + config.v_head_dim);
    let full_value = kv_full.subrange(head * stride + nope, head * stride + stride);
    assert forall|d: int| 0 <= d < config.v_head_dim implies #[trigger] value_part[d]
        == full_value[d] by {
        lemma_head_of(at + d, dim, head);
    }
    assert(value_part =~= full_value);
}

proof fn lemma_written_spans(kv_full_len: int, config: ComputeConfig, from: int, head: int)
    requires
        0 <= from <= head < config.num_kv_heads,
        written_heads(kv_full_len, config, from).2 is None,
    ensures
        head * (config.qk_nope_head_dim + config.v_head_dim) + config.qk_nope_head_dim
            + config.v_head_dim <= kv_full_len,
    decreases head - from,
{
    if from < head {
        lemma_written_spans(kv_full_len, config, from + 1, head);
    }
}

/// What each head of an attention over the cache reads and writes.
#[derive(Clone, Copy, Debug, PartialEq, Eq, Structural)]
pub struct CausalPlan {
    pub qk_head_dim: usize,
    pub v_head_dim: usize,
    pub kv_head_dim: usize,
    pub num_kv_heads: usize,
    /// Length of the output, which starts out as zeros.
    pub value_len: usize,
    /// Heads that are computed.
    pub heads: usize,
    /// Positions that each of them attends to: the first ones, up to its own.
    pub history_len: usize,
}

/// Attention of the position over all positions up to it.
pub open spec fn causal_plan<T>(
    kv: KvView<T>,
    config: ComputeConfig,
    layer_index: int,
    token_pos: int,
    query_len: int,
    output_len: int,
) -> Result<CausalPlan, ComputeError> {
    let qk_head_dim = config.qk_nope_head_dim + config.qk_rope_head_dim;
    let query_required = config.num_attention_heads * qk_head_dim;
    let value_required = config.num_kv_heads * config.v_head_dim;
    if qk_head_dim > usize::MAX {
        Err(ComputeError::InvalidShape("qk head dim overflow"))
    } else if query_required > usize::MAX {
        Err(ComputeError::InvalidShape("query heads size overflow"))
    } else if value_required > usize::MAX {
        Err(ComputeError::InvalidShape("value concat size overflow"))
    } else if query_len < query_required || output_len < value_required {
        Err(ComputeError::InvalidShape("attention input/output too small"))
    } else if kv.num_kv_heads != config.num_kv_heads || kv.head_dim < qk_head_dim {
        Err(ComputeError::InvalidShape("KV cache layout does not match attention config"))
    } else if token_pos >= kv.max_tokens {
        Err(ComputeError::InvalidShape("attention token_pos outside KV cache"))
    } else {
        let heads = if config.v_head_dim == 0 {
            0
        } else {
            smaller(config.num_attention_heads as int, config.num_kv_heads as int)
        };
        match kv.slot_error(layer_index, 0) {
            Some(error) => if heads > 0 {
                Err(error)
            } else {
                Ok(causal_fields(kv, config, token_pos, heads))
            },
            None => Ok(causal_fields(kv, config, token_pos, heads)),
        }
    }
}

/// The fields of a plan for `heads` heads.
pub open spec fn causal_fields<T>(
    kv: KvView<T>,
    config: ComputeConfig,
    token_pos: int,
    heads: int,
) -> CausalPlan {
    CausalPlan {
        qk_head_dim: (config.qk_nope_head_dim + config.qk_rope_head_dim) as usize,
        v_head_dim: config.v_head_dim,
        kv_head_dim: kv.head_dim,
        num_kv_heads: config.num_kv_heads,
        value_len: (config.num_kv_heads * config.v_head_dim) as usize,
        heads: heads as usize,
        history_len: (token_pos + 1) as usize,
    }
}

/// Plans the attention of a position over all positions up to it.
pub fn plan_causal_attention<T: Copy>(
    layer_index: usize,
    token_pos: usize,
    query_len: usize,
    kv_cache: &KVCache<'_, T>,
    output_len: usize,
    config: &ComputeConfig,
) -> (result: Result<CausalPlan, ComputeError>)
    ensures
        result == causal_plan(
            kv_cache@,
            *config,
            layer_index as int,
            token_pos as int,
            query_len as int,
            output_len as int,
        ),
        result matches Ok(plan) ==> plan.wf(),
{
    proof {
        if causal_plan(
            kv_cache@,
            *config,
            layer_index as int,
            token_pos as int,
            query_len as int,
            output_len as int,
        ) is Ok {
            law_attention_is_causal(
                kv_cache@,
                *config,
                layer_index as int,
                token_pos as int,
                query_len as int,
                output_len as int,
            );
        }
    }
    let qk_head_dim: usize = match config.qk_nope_head_dim.checked_add(config.qk_rope_head_dim) {
        Some(dim) => dim,
        None => return Err(ComputeError::InvalidShape("qk head dim overflow")),
    };
    let query_required: usize = match config.num_attention_heads.checked_mul(qk_head_dim) {
        Some(len) => len,
        None => return Err(ComputeError::InvalidShape("query heads size overflow")),
    };
    let value_len: usize = match config.num_kv_heads.checked_mul(config.v_head_dim) {
        Some(len) => len,
        None => return Err(ComputeError::InvalidShape("value concat size overflow")),
    };
    if query_len < query_required || output_len < value_len {
        return Err(ComputeError::InvalidShape("attention input/output too small"));
    }
    let (kv_heads, kv_head_dim): (usize, usize) = kv_cache.head_layout();
    if kv_heads != config.num_kv_heads || kv_head_dim < qk_head_dim {
        return Err(
            ComputeError::InvalidShape("KV cache layout does not match attention config"),
        );
    }
    if token_pos >= kv_cache.capacity() {
        return Err(ComputeError::InvalidShape("attention token_pos outside KV cache"));
    }
    let output_heads: usize = value_len / larger_of(config.v_head_dim, 1);
    proof {
        if config.v_head_dim > 0 {
            vstd::arithmetic::div_mod::lemma_div_multiples_vanish(
                config.num_kv_heads as int,
                config.v_head_dim as int,
            );
            vstd::arithmetic::mul::lemma_mul_is_commutative(
                config.num_kv_heads as int,
                config.v_head_dim as int,
            );
        } else {
            assert(config.num_kv_heads * config.v_head_dim == 0) by (nonlinear_arith)
                requires
                    config.v_head_dim == 0,
            ;
        }
    }
    let heads: usize = smaller_of(config.num_attention_heads, output_heads);
    if heads > 0 {
        match kv_cache.check_slot(layer_index, 0) {
            Some(error) => return Err(error),
            None => {},
        }
    }
    Ok(
        CausalPlan {
            qk_head_dim,
            v_head_dim: config.v_head_dim,
            kv_head_dim,
            num_kv_heads: config.num_kv_heads,
            value_len,
            heads,
            history_len: token_pos + 1,
        },
    )
}

/// Where one head's query, key, value and output start.
#[derive(Clone, Copy, Debug, PartialEq, Eq, Structural)]
pub struct HeadSpans {
    pub query_start: usize,
    /// Start of the head in each cached key and each cached value.
    pub kv_start: usize,
    pub output_start: usize,
}

impl CausalPlan {
    /// The heads that are computed lie in the queries, in the cached vectors
    /// and in the output.
    pub open spec fn wf(self) -> bool {
        &&& self.heads <= self.num_kv_heads
        &&& self.qk_head_dim <= self.kv_head_dim
        &&& self.heads * self.qk_head_dim <= usize::MAX
        &&& self.num_kv_heads * self.v_head_dim == self.value_len
        &&& self.heads > 0 ==> self.num_kv_heads * self.kv_head_dim <= usize::MAX
    }

    /// Where head `head` reads and writes. It attends to the cached head with
    /// its own number.
    pub fn head(&self, head: usize) -> (spans: HeadSpans)
        requires
            self.wf(),
            head < self.heads,
        ensures
            spans.query_start == head * self.qk_head_dim,
            spans.query_start + self.qk_head_dim <= self.heads * self.qk_head_dim,
            spans.kv_start == (head % self.num_kv_heads) * self.kv_head_dim,
            spans.kv_start == head * self.kv_head_dim,
            spans.kv_start + self.kv_head_dim <= self.num_kv_heads * self.kv_head_dim,
            spans.output_start == head * self.v_head_dim,
            spans.output_start + self.v_head_dim <= self.value_len,
    {
        proof {
            let next = head + 1;
            assert(next * self.qk_head_dim <= self.heads * self.qk_head_dim && next
                * self.qk_head_dim == head * self.qk_head_dim + self.qk_head_dim && 0 <= head
                * self.qk_head_dim) by (nonlinear_arith)
                requires
                    next <= self.heads,
                    next == head + 1,
            ;
            assert(next * self.kv_head_dim <= self.num_kv_heads * self.kv_head_dim && next
                * self.kv_head_dim == head * self.kv_head_dim + self.kv_head_dim && 0 <= head
                * self.kv_head_dim) by (nonlinear_arith)
                requires
                    next <= self.num_kv_heads,
                    next == head + 1,
            ;
            assert(next * self.v_head_dim <= self.num_kv_heads * self.v_head_dim && next
                * self.v_head_dim == head * self.v_head_dim + self.v_head_dim && 0 <= head
                * self.v_head_dim) by (nonlinear_arith)
                requires
                    next <= self.num_kv_heads,
                    next == head + 1,
            ;
            vstd::arithmetic::div_mod::lemma_small_mod(head as nat, self.num_kv_heads as nat);
        }
        HeadSpans {
            query_start: head * self.qk_head_dim,
            kv_start: head * self.kv_head_dim,
            output_start: head * self.v_head_dim,
        }
    }
}

/// The keys and values that a head attends to, position by position.
pub open spec fn head_history<T>(
    kv: KvView<T>,
    plan: CausalPlan,
    layer_index: int,
    head: int,
) -> Seq<(Seq<T>, Seq<T>)> {
    let at = head * plan.kv_head_dim;
    Seq::new(
        plan.history_len as nat,
        |pos: int|
            (
                kv.key(layer_index, pos).subrange(at, at + plan.qk_head_dim),
                kv.value(layer_index, pos).subrange(at, at + plan.v_head_dim),
            ),
    )
}

/// The contents of a list of keys with their values.
pub open spec fn history_views<T>(history: Seq<(&[T], &[T])>) -> Seq<(Seq<T>, Seq<T>)> {
    history.map_values(|pair: (&[T], &[T])| (pair.0@, pair.1@))
}

/// The outputs of the heads, where `attend` is what a head's query gives with the
/// keys and values that it attends to.
pub open spec fn causal_outputs<T>(
    kv: KvView<T>,
    plan: CausalPlan,
    layer_index: int,
    query: Seq<T>,
    attend: spec_fn(Seq<T>, Seq<(Seq<T>, Seq<T>)>) -> Seq<T>,
) -> Seq<Seq<T>> {
    Seq::new(
        plan.heads as nat,
        |head: int|
            attend(
                query.subrange(head * plan.qk_head_dim, (head + 1) * plan.qk_head_dim),
                head_history(kv, plan, layer_index, head),
            ),
    )
}

impl CausalPlan {
    /// Reads the keys and values that head `head` attends to.
    pub fn read_head<'b, T: Copy>(
        &self,
        kv_cache: &'b KVCache<'_, T>,
        layer_index: usize,
        head: usize,
    ) -> (history: Vec<(&'b [T], &'b [T])>)
        requires
            self.wf(),
            head < self.heads,
            kv_cache@.wf(),
            kv_cache@.num_kv_heads == self.num_kv_heads,
            kv_cache@.head_dim == self.kv_head_dim,
            self.history_len > 0,
            kv_cache@.slot_error(layer_index as int, self.history_len - 1) is None,
            head * self.kv_head_dim + self.v_head_dim <= self.num_kv_heads * self.kv_head_dim,
        ensures
            history_views(history@) == head_history(
                kv_cache@,
                *self,
                layer_index as int,
                head as int,
            ),
    {
        let spans = self.head(head);
        let at: usize = spans.kv_start;
        let mut history: Vec<(&'b [T], &'b [T])> = Vec::new();
        let ghost all = head_history(kv_cache@, *self, layer_index as int, head as int);
        proof {
            assert(history_views(history@) =~= all.take(0));
        }
        let mut pos: usize = 0;
        while pos < self.history_len
            invariant
                pos <= self.history_len,
                self.wf(),
                head < self.heads,
                at == head * self.kv_head_dim,
                at + self.kv_head_dim <= self.num_kv_heads * self.kv_head_dim,
                at + self.v_head_dim <= self.num_kv_heads * self.kv_head_dim,
                kv_cache@.wf(),
                kv_cache@.num_kv_heads == self.num_kv_heads,
                kv_cache@.head_dim == self.kv_head_dim,
                kv_cache@.slot_error(layer_index as int, self.history_len - 1) is None,
                all == head_history(kv_cache@, *self, layer_index as int, head as int),
                history_views(history@) == all.take(pos as int),
            decreases self.history_len - pos,
        {
            proof {
                kv_cache.lemma_key_len(layer_index as int, pos as int);
            }
            if let (Ok(key), Ok(value)) = (
                kv_cache.key_slice(layer_index, pos),
                kv_cache.value_slice(layer_index, pos),
            ) {
                let ghost before = history@;
                proof {
                    assert(key@.len() == key.len() && value@.len() == value.len());
                }
                history.push(
                    (&key[at..at + self.qk_head_dim], &value[at..at + self.v_head_dim]),
                );
                proof {
                    assert(history_views(history@) =~= history_views(before).push(all[pos as int]));
                    assert(all.take(pos as int).push(all[pos as int]) =~= all.take(pos + 1));
                }
            }
            pos += 1;
        }
        proof {
            assert(all.take(self.history_len as int) =~= all);
        }
        history
    }
}

/// Later positions do not matter: over two caches of one shape that agree up to a
/// position, its attention is planned alike, every head attends to the same keys
/// and values, and whatever a head makes of them, the outputs are the same.
pub proof fn law_later_positions_do_not_matter<T>(
    kv: KvView<T>,
    other: KvView<T>,
    config: ComputeConfig,
    layer_index: int,
    token_pos: int,
    query: Seq<T>,
    output_len: int,
    attend: spec_fn(Seq<T>, Seq<(Seq<T>, Seq<T>)>) -> Seq<T>,
)
    requires
        other == (KvView { storage: other.storage, cursor: other.cursor, ..kv }),
        0 <= token_pos,
        forall|pos: int|
            0 <= pos <= token_pos ==> #[trigger] kv.key(layer_index, pos) == other.key(
                layer_index,
                pos,
            ) && kv.value(layer_index, pos) == other.value(layer_index, pos),
        causal_plan(
            kv,
            config,
            layer_index,
            token_pos,
            query.len() as int,
            output_len,
        ) is Ok,
    ensures
        ({
            let planned = causal_plan(
                kv,
                config,
                layer_index,
                token_pos,
                query.len() as int,
                output_len,
            );
            let plan = planned->Ok_0;
            &&& causal_plan(
                other,
                config,
                layer_index,
                token_pos,
                query.len() as int,
                output_len,
            ) == planned
            &&& forall|head: int|
                0 <= head < plan.heads ==> #[trigger] head_history(kv, plan, layer_index, head)
                    == head_history(other, plan, layer_index, head)
            &&& causal_outputs(kv, plan, layer_index, query, attend) == causal_outputs(
                other,
                plan,
                layer_index,
                query,
                attend,
            )
        }),
{
    let plan = causal_plan(
        kv,
        config,
        layer_index,
        token_pos,
        query.len() as int,
        output_len,
    )->Ok_0;
    law_attention_is_causal(
        kv,
        config,
        layer_index,
        token_pos,
        query.len() as int,
        output_len,
    );
    assert forall|head: int| 0 <= head < plan.heads implies #[trigger] head_history(
        kv,
        plan,
        layer_index,
        head,
    ) == head_history(other, plan, layer_index, head) by {
        assert forall|pos: int| 0 <= pos < plan.history_len implies head_history(
            kv,
            plan,
            layer_index,
            head,
        )[pos] == head_history(other, plan, layer_index, head)[pos] by {
            assert(kv.key(layer_index, pos) == other.key(layer_index, pos));
        }
        assert(head_history(kv, plan, layer_index, head) =~= head_history(
            other,
            plan,
            layer_index,
            head,
        ));
    }
    assert(causal_outputs(kv, plan, layer_index, query, attend) =~= causal_outputs(
        other,
        plan,
        layer_index,
        query,
        attend,
    ));
}

/// Attention is causal: every plan attends to exactly the positions up to the
/// one it is made for, and all of them are in the cache.
pub proof fn law_attention_is_causal<T>(
    kv: KvView<T>,
    config: ComputeConfig,
    layer_index: int,
    token_pos: int,
    query_len: int,
    output_len: int,
)
    requires
        0 <= token_pos,
        causal_plan(kv, config, layer_index, token_pos, query_len, output_len) is Ok,
    ensures
        causal_plan(kv, config, layer_index, token_pos, query_len, output_len)->Ok_0.history_len
            == token_pos + 1,
        token_pos + 1 <= kv.max_tokens,
        causal_plan(kv, config, layer_index, token_pos, query_len, output_len)->Ok_0.wf(),
{
    let qk_head_dim = config.qk_nope_head_dim + config.qk_rope_head_dim;
    let plan = causal_plan(kv, config, layer_index, token_pos, query_len, output_len)->Ok_0;
    assert(plan.heads * qk_head_dim <= config.num_attention_heads * qk_head_dim)
        by (nonlinear_arith)
        requires
            plan.heads <= config.num_attention_heads,
            0 <= qk_head_dim,
    ;
    assert(0 <= config.num_kv_heads * config.v_head_dim) by (nonlinear_arith);
}

/// A head attends to every position up to its own, in order: the keys and values
/// of position `pos` are the parts of the cached vectors that belong to the head.
pub proof fn law_history_holds_every_position<T>(
    kv: KvView<T>,
    config: ComputeConfig,
    layer_index: int,
    token_pos: int,
    query_len: int,
    output_len: int,
    head: int,
    pos: int,
)
    requires
        kv.wf(),
        kv.storage.len() <= usize::MAX,
        0 <= layer_index,
        0 <= pos <= token_pos,
        causal_plan(kv, config, layer_index, token_pos, query_len, output_len) is Ok,
        config.v_head_dim <= kv.head_dim,
        0 <= head < config.num_kv_heads,
        head < config.num_attention_heads,
        config.v_head_dim > 0,
    ensures
        ({
            let plan = causal_plan(
                kv,
                config,
                layer_index,
                token_pos,
                query_len,
                output_len,
            )->Ok_0;
            let history = head_history(kv, plan, layer_index, head);
            &&& head < plan.heads
            &&& history.len() == token_pos + 1
            &&& history[pos].0.len() == config.qk_nope_head_dim + config.qk_rope_head_dim
            &&& history[pos].1.len() == config.v_head_dim
            &&& forall|d: int|
                0 <= d < history[pos].0.len() ==> #[trigger] history[pos].0[d] == kv.key(
                    layer_index,
                    pos,
                )[head * kv.head_dim + d]
            &&& forall|d: int|
                0 <= d < history[pos].1.len() ==> #[trigger] history[pos].1[d] == kv.value(
                    layer_index,
                    pos,
                )[head * kv.head_dim + d]
        }),
{
    let dim = kv.head_dim as int;
    let at = head * dim;
    if dim > 0 {
        crate::compute::kv_cache::law_vectors_lie_in_order(kv, layer_index, pos, head, 0);
    }
    assert(0 <= at && at + dim <= kv.num_kv_heads * dim) by (nonlinear_arith)
        requires
            at == head * dim,
            0 <= head < kv.num_kv_heads,
            0 <= dim,
    ;
}

/// What a token leaves in the cache is what a head finds there: its key is the
/// head's own part of the expansion with the rotated part that all heads share
/// behind it, its value is the rest of the head's part; and what other positions
/// left stays.
pub proof fn law_heads_find_what_was_appended<T>(
    kv: KvView<T>,
    config: ComputeConfig,
    layer_index: int,
    token_pos: int,
    kv_a: Seq<T>,
    kv_full: Seq<T>,
    zero: T,
    head: int,
    d: int,
)
    requires
        kv.wf(),
        kv.storage.len() <= usize::MAX,
        kv.has_slot(layer_index, token_pos),
        append_layout_error(kv, config, kv_a.len() as int) is None,
        written_heads(kv_full.len() as int, config, 0).2 is None,
        0 <= head < config.num_kv_heads,
        0 <= d,
    ensures
        ({
            let nope = config.qk_nope_head_dim as int;
            let rope = config.qk_rope_head_dim as int;
            let stride = nope + config.v_head_dim;
            let at = head * kv.head_dim;
            let count = config.num_kv_heads as int;
            let after = kv.with_token(
                layer_index,
                token_pos,
                expanded_key(kv, config, kv_a, kv_full, zero, count),
                expanded_value(kv, config, kv_full, zero, count),
            );
            &&& d < nope ==> after.key(layer_index, token_pos)[at + d] == kv_full[head * stride + d]
            &&& d < rope ==> after.key(layer_index, token_pos)[at + nope + d]
                == kv_a[config.kv_lora_rank + d]
            &&& d < config.v_head_dim ==> after.value(layer_index, token_pos)[at + d]
                == kv_full[head * stride + nope + d]
        }),
{
    let nope = config.qk_nope_head_dim as int;
    let rope = config.qk_rope_head_dim as int;
    let stride = nope + config.v_head_dim;
    let at = head * kv.head_dim;
    let count = config.num_kv_heads as int;
    let dim = kv.head_dim as int;
    let key = expanded_key(kv, config, kv_a, kv_full, zero, count);
    let value = expanded_value(kv, config, kv_full, zero, count);
    assert(kv.vector_len() >= 0) by (nonlinear_arith)
        requires
            kv.vector_len() == kv.num_kv_heads * kv.head_dim,
    ;
    crate::compute::kv_cache::law_read_gives_back_write(kv, layer_index, token_pos, key, value);
    law_heads_share_rotated_part(kv, config, kv_a, kv_full, zero, head);
    lemma_written_spans(kv_full.len() as int, config, 0, head);
    assert(0 <= at && at + dim <= kv.vector_len()) by (nonlinear_arith)
        requires
            at == head * dim,
            0 <= head < kv.num_kv_heads,
            0 <= dim,
            kv.vector_len() == kv.num_kv_heads * dim,
    ;
    assert(head * stride >= 0) by (nonlinear_arith)
        requires
            head >= 0,
            stride >= 0,
    ;
    if d < nope {
        assert(key.subrange(at, at + nope)[d] == key[at + d]);
        assert(kv_full.subrange(head * stride, head * stride + nope)[d] == kv_full[head * stride
            + d]);
    }
    if d < rope {
        assert(key.subrange(at + nope, at + nope + rope)[d] == key[at + nope + d]);
        assert(kv_a.subrange(config.kv_lora_rank as int, config.kv_lora_rank + rope)[d]
            == kv_a[config.kv_lora_rank + d]);
    }
    if d < config.v_head_dim {
        assert(value.subrange(at, at + config.v_head_dim)[d] == value[at + d]);
        assert(kv_full.subrange(head * stride + nope, head * stride + stride)[d]
            == kv_full[head * stride + nope + d]);
    }
}

/// All heads of the cache are written exactly where the expansion holds a key and
/// a value for each.
pub proof fn law_all_heads_are_written(kv_full_len: int, config: ComputeConfig, from: int)
    requires
        0 <= from <= config.num_kv_heads,
        kv_full_len <= usize::MAX,
        config.num_kv_heads * (config.qk_nope_head_dim + config.v_head_dim) <= kv_full_len,
    ensures
        written_heads(kv_full_len, config, from) == (
            config.num_kv_heads as int,
            config.num_kv_heads as int,
            None::<ComputeError>,
        ),
    decreases config.num_kv_heads - from,
{
    if from < config.num_kv_heads {
        let stride = config.qk_nope_head_dim + config.v_head_dim;
        assert(0 <= from * stride && from * stride + stride <= config.num_kv_heads * stride)
            by (nonlinear_arith)
            requires
                0 <= from < config.num_kv_heads,
                0 <= stride,
        ;
        law_all_heads_are_written(kv_full_len, config, from + 1);
    }
}

/// The scratch of a probe holds the low-rank queries, the queries or what the
/// heads give, whichever is longer, and the low-rank keys, one behind the other;
/// what is left behind them holds at least all keys and values.
pub proof fn law_probe_parts_follow_each_other(config: ComputeConfig, scratch_len: int)
    requires
        scratch_len <= usize::MAX,
    ensures
        probe_dims(config, scratch_len) matches Ok(dims) ==> {
            &&& dims.qk_head_dim == config.qk_nope_head_dim + config.qk_rope_head_dim
            &&& dims.q_full_len == config.num_attention_heads * dims.qk_head_dim
            &&& dims.value_concat_len == config.num_kv_heads * config.v_head_dim
            &&& dims.q_full_len <= dims.q_or_value_len
            &&& dims.value_concat_len <= dims.q_or_value_len
            &&& dims.q_or_value_len == dims.q_full_len || dims.q_or_value_len
                == dims.value_concat_len
            &&& dims.kv_a_len == config.kv_lora_rank + config.qk_rope_head_dim
            &&& config.q_lora_rank + dims.q_or_value_len + dims.kv_a_len + dims.kv_full_len
                == scratch_len
            &&& config.qk_nope_head_dim + config.v_head_dim <= usize::MAX ==> config.num_kv_heads
                * (config.qk_nope_head_dim + config.v_head_dim) <= dims.kv_full_len
        },
{
}

/// A token goes through the first matrix of its role that fits its length, and
/// what it gives through the one that fits the low rank, where there is one; the
/// queries and the keys each by their own matrices and norm.
pub proof fn law_probes_pass_their_matrices(
    b: BlockView,
    config: ComputeConfig,
    dims: ProbeDims,
    hidden_len: int,
)
    ensures
        probe_query(b, config, dims, hidden_len) matches Ok(Some(plan)) ==> {
            &&& matrix_in(b, TensorRole::QProj, config.hidden_size) matches Ok(Some(t)) && gemv_in(
                b,
                t,
                hidden_len,
                config.q_lora_rank as int,
            ) == Ok::<(GemvView, usize), ComputeError>((plan.first, plan.first_values))
            &&& norm_in(
                b,
                "q_a_layernorm".spec_bytes(),
                config.q_lora_rank as int,
                config.q_lora_rank as int,
            ) == Ok::<Option<NormView>, ComputeError>(plan.norm)
            &&& plan.second is None ==> matrix_in(b, TensorRole::QProj, config.q_lora_rank) == Ok::<
                Option<TensorView>,
                ComputeError,
            >(None)
            &&& plan.second matches Some(second) ==> (matrix_in(
                b,
                TensorRole::QProj,
                config.q_lora_rank,
            ) matches Ok(Some(t)) && gemv_in(
                b,
                t,
                config.q_lora_rank as int,
                dims.q_full_len as int,
            ) == Ok::<(GemvView, usize), ComputeError>(second))
        },
        probe_kv(b, config, dims, hidden_len) matches Ok(Some(plan)) ==> {
            &&& matrix_in(b, TensorRole::KvProj, config.hidden_size) matches Ok(Some(t)) && gemv_in(
                b,
                t,
                hidden_len,
                dims.kv_a_len as int,
            ) == Ok::<(GemvView, usize), ComputeError>((plan.first, plan.first_values))
            &&& norm_in(
                b,
                "kv_a_layernorm".spec_bytes(),
                config.kv_lora_rank as int,
                config.kv_lora_rank as int,
            ) == Ok::<Option<NormView>, ComputeError>(plan.norm)
            &&& plan.second matches Some(second) ==> (matrix_in(
                b,
                TensorRole::KvProj,
                config.kv_lora_rank,
            ) matches Ok(Some(t)) && gemv_in(
                b,
                t,
                config.kv_lora_rank as int,
                dims.kv_full_len as int,
            ) == Ok::<(GemvView, usize), ComputeError>(second))
        },
        probe_output(b, dims, hidden_len) matches Ok(Some(plan)) ==> (matrix_in(
            b,
            TensorRole::OProj,
            dims.value_concat_len,
        ) matches Ok(Some(t)) && gemv_in(b, t, dims.value_concat_len as int, hidden_len) == Ok::<
            (GemvView, usize),
            ComputeError,
        >(plan)),
{
}

/// Heads of a plan follow each other in the queries, in the cache and in the output.
pub proof fn law_head_spans_follow_each_other(
    plan: &CausalPlan,
    head: usize,
    spans: HeadSpans,
    next: HeadSpans,
)
    requires
        plan.wf(),
        head + 1 < plan.heads,
        call_ensures(CausalPlan::head, (plan, head), spans),
        call_ensures(CausalPlan::head, (plan, (head + 1) as usize), next),
    ensures
        head == 0 ==> spans.query_start == 0 && spans.kv_start == 0 && spans.output_start == 0,
        next.query_start == spans.query_start + plan.qk_head_dim,
        next.kv_start == spans.kv_start + plan.kv_head_dim,
        next.output_start == spans.output_start + plan.v_head_dim,
        next.output_start + plan.v_head_dim <= plan.value_len,
{
    assert((head + 1) * plan.qk_head_dim == head * plan.qk_head_dim + plan.qk_head_dim)
        by (nonlinear_arith);
    assert((head + 1) * plan.kv_head_dim == head * plan.kv_head_dim + plan.kv_head_dim)
        by (nonlinear_arith);
    assert((head + 1) * plan.v_head_dim == head * plan.v_head_dim + plan.v_head_dim)
        by (nonlinear_arith);
    assert(head == 0 ==> head * plan.qk_head_dim == 0 && head * plan.kv_head_dim == 0 && head
        * plan.v_head_dim == 0) by (nonlinear_arith);
}

/// What `read_head` returns: of every position up to that of the plan the part of the
/// key and of the value that belongs to the head.
pub proof fn law_read_head<T: Copy>(
    plan: &CausalPlan,
    kv_cache: &KVCache<'_, T>,
    layer_index: usize,
    head: usize,
    history: Vec<(&[T], &[T])>,
    pos: int,
)
    requires
        plan.wf(),
        head < plan.heads,
        kv_cache@.wf(),
        kv_cache@.head_dim == plan.kv_head_dim,
        0 <= pos < plan.history_len,
        call_ensures(
            CausalPlan::read_head::<T>,
            (plan, kv_cache, layer_index, head),
            history,
        ),
    ensures
        history@.len() == plan.history_len,
        history@[pos].0@ == kv_cache@.key(layer_index as int, pos).subrange(
            head * kv_cache@.head_dim,
            head * kv_cache@.head_dim + plan.qk_head_dim,
        ),
        history@[pos].1@ == kv_cache@.value(layer_index as int, pos).subrange(
            head * kv_cache@.head_dim,
            head * kv_cache@.head_dim + plan.v_head_dim,
        ),
{
    let read = head_history(kv_cache@, *plan, layer_index as int, head as int);
    assert(history_views(history@) == read);
    assert(history_views(history@)[pos] == (history@[pos].0@, history@[pos].1@));
}

} // verus!
