//! Shapes and options of a model, and the scratch that they call for.

use crate::compute::compressor::compress_ratio;
use crate::deepseek_v4::{DEEPSEEK_V4_EXPERT_INTERMEDIATE_SIZE, DEEPSEEK_V4_HIDDEN_SIZE};
use vstd::prelude::*;

verus! {

use crate::compute::compressor::ratio_of;

/// Context length up to which full causal attention and the sparse indexer
/// select the same positions.
pub const GLM52_INDEX_TOPK: usize = 2048;

/// Why the indexer is left out at a context length, and whether that changes
/// nothing.
pub fn glm52_indexer_bypass_status(context_len: usize) -> (status: (&'static str, bool))
    ensures
        status.1 == (context_len <= GLM52_INDEX_TOPK),
        status.1 ==> status.0@ == "not_required_context_le_topk"@,
        !status.1 ==> status.0@ == "bypassed_long_context"@,
{
    if context_len <= GLM52_INDEX_TOPK {
        ("not_required_context_le_topk", true)
    } else {
        ("bypassed_long_context", false)
    }
}

/// Kernel variants by instruction set.
#[derive(Clone, Copy, Debug, PartialEq, Eq, Structural)]
pub enum CpuKernel {
    Scalar,
    Avx2,
    Avx512,
}

/// Instruction sets that a processor offers.
#[derive(Clone, Copy, Debug, PartialEq, Eq, Structural)]
pub struct CpuFeatures {
    pub avx512f: bool,
    pub avx2: bool,
    pub fma: bool,
}

/// The best kernel that a processor with these features runs.
pub open spec fn best_kernel(features: CpuFeatures) -> CpuKernel {
    if features.avx512f {
        CpuKernel::Avx512
    } else if features.avx2 && features.fma {
        CpuKernel::Avx2
    } else {
        CpuKernel::Scalar
    }
}

/// The best kernel that a processor with these features runs.
pub fn detect_best_kernel(features: CpuFeatures) -> (kernel: CpuKernel)
    ensures
        kernel == best_kernel(features),
{
    if features.avx512f {
        return CpuKernel::Avx512;
    }
    if features.avx2 && features.fma {
        return CpuKernel::Avx2;
    }
    CpuKernel::Scalar
}

/// How router logits become weights.
#[derive(Clone, Copy, Debug, PartialEq, Eq, Structural)]
pub enum RouterMath {
    /// Raw logits; weights are normalised where they are used.
    RawLogits,
    /// The square root of the softplus of the logits. A bias shifts
    /// scores for selection only; the weights are the scores of the selected
    /// experts, normalised and scaled.
    DeepSeekV4SqrtSoftplus,
}

/// Attention by model family.
#[derive(Clone, Copy, Debug, PartialEq, Eq, Structural)]
pub enum AttentionKind {
    /// Low-rank queries and expanded keys and values.
    GlmDsaProbe,
    /// One latent vector per token as key and value, a grouped low-rank output
    /// projection, and attention sinks.
    DeepSeekV4Mla,
}

/// Shapes and options of a model. The fields that end in `_bits` are
/// single-precision patterns.
#[derive(Clone, Copy, Debug, PartialEq, Eq, Structural)]
pub struct ComputeConfig {
    pub hidden_size: usize,
    pub intermediate_size: usize,
    pub num_attention_heads: usize,
    pub num_kv_heads: usize,
    pub qk_rope_head_dim: usize,
    pub qk_nope_head_dim: usize,
    pub v_head_dim: usize,
    pub q_lora_rank: usize,
    pub kv_lora_rank: usize,
    pub rope_theta_bits: u32,
    pub prefill_chunk_tokens: usize,
    pub quant_group_size: usize,
    pub preferred_kernel: CpuKernel,
    pub router_math: RouterMath,
    pub route_scale_bits: u32,
    pub num_hash_layers: usize,
    pub attention_kind: AttentionKind,
    pub o_groups: usize,
    pub o_lora_rank: usize,
    pub hc_mult: usize,
    pub hc_sinkhorn_iters: usize,
    pub hc_eps_bits: u32,
}

/// The largest machine word that is not above `value`.
pub open spec fn saturated(value: int) -> int {
    if value > usize::MAX {
        usize::MAX as int
    } else {
        value
    }
}

/// `a * b`, or the largest word.
pub fn saturating_product(a: usize, b: usize) -> (product: usize)
    ensures
        product == saturated(a * b),
{
    match a.checked_mul(b) {
        Some(product) => product,
        None => usize::MAX,
    }
}

/// The larger of two numbers.
pub open spec fn larger(a: int, b: int) -> int {
    if a < b {
        b
    } else {
        a
    }
}

/// The smaller of two numbers.
pub open spec fn smaller(a: int, b: int) -> int {
    if b < a {
        b
    } else {
        a
    }
}

/// The larger of two words.
pub fn larger_of(a: usize, b: usize) -> (r: usize)
    ensures
        r == larger(a as int, b as int),
{
    if a < b {
        b
    } else {
        a
    }
}

/// The smaller of two words.
pub fn smaller_of(a: usize, b: usize) -> (r: usize)
    ensures
        r == smaller(a as int, b as int),
{
    if b < a {
        b
    } else {
        a
    }
}

impl ComputeConfig {
    /// The configuration of the GLM family: the published shapes from a hidden
    /// size of 6144 on, and a single head for smaller models.
    pub open spec fn glm52(hidden_size: usize, features: CpuFeatures) -> ComputeConfig {
        let full = hidden_size >= 6144;
        let heads: usize = if full {
            64
        } else {
            1
        };
        let rope: usize = if full || hidden_size > 64 {
            64
        } else {
            hidden_size
        };
        ComputeConfig {
            hidden_size,
            intermediate_size: saturated(hidden_size * 4) as usize,
            num_attention_heads: heads,
            num_kv_heads: heads,
            qk_rope_head_dim: rope,
            qk_nope_head_dim: if full {
                192
            } else {
                (hidden_size - rope) as usize
            },
            v_head_dim: if full {
                256
            } else {
                hidden_size
            },
            q_lora_rank: if full {
                2048
            } else {
                hidden_size
            },
            kv_lora_rank: if full {
                512
            } else {
                hidden_size
            },
            rope_theta_bits: 0x4af42400,
            prefill_chunk_tokens: 16,
            quant_group_size: 128,
            preferred_kernel: best_kernel(features),
            router_math: RouterMath::RawLogits,
            route_scale_bits: 0x3f800000,
            num_hash_layers: 0,
            attention_kind: AttentionKind::GlmDsaProbe,
            o_groups: 0,
            o_lora_rank: 0,
            hc_mult: 1,
            hc_sinkhorn_iters: 20,
            hc_eps_bits: 0x358637bd,
        }
    }

    /// The configuration of the GLM family for a hidden size. The rope base is
    /// eight million, the route scale one, and the epsilon a millionth.
    pub fn glm52_like(hidden_size: usize, features: CpuFeatures) -> (config: Self)
        ensures
            config == Self::glm52(hidden_size, features),
    {
        let full: bool = hidden_size >= 6144;
        let heads: usize = if full {
            64
        } else {
            1
        };
        let rope: usize = if full || hidden_size > 64 {
            64
        } else {
            hidden_size
        };
        ComputeConfig {
            hidden_size,
            intermediate_size: saturating_product(hidden_size, 4),
            num_attention_heads: heads,
            num_kv_heads: heads,
            qk_rope_head_dim: rope,
            qk_nope_head_dim: if full {
                192
            } else {
                hidden_size - rope
            },
            v_head_dim: if full {
                256
            } else {
                hidden_size
            },
            q_lora_rank: if full {
                2048
            } else {
                hidden_size
            },
            kv_lora_rank: if full {
                512
            } else {
                hidden_size
            },
            rope_theta_bits: 0x4af42400,
            prefill_chunk_tokens: 16,
            quant_group_size: 128,
            preferred_kernel: detect_best_kernel(features),
            router_math: RouterMath::RawLogits,
            route_scale_bits: 0x3f800000,
            num_hash_layers: 0,
            attention_kind: AttentionKind::GlmDsaProbe,
            o_groups: 0,
            o_lora_rank: 0,
            hc_mult: 1,
            hc_sinkhorn_iters: 20,
            hc_eps_bits: 0x358637bd,
        }
    }

    /// The configuration of DeepSeek-V4-Flash.
    pub open spec fn deepseek_v4(features: CpuFeatures) -> ComputeConfig {
        ComputeConfig {
            hidden_size: DEEPSEEK_V4_HIDDEN_SIZE,
            intermediate_size: DEEPSEEK_V4_EXPERT_INTERMEDIATE_SIZE,
            num_attention_heads: 64,
            num_kv_heads: 1,
            qk_rope_head_dim: 64,
            qk_nope_head_dim: 448,
            v_head_dim: 512,
            q_lora_rank: 1024,
            kv_lora_rank: 448,
            rope_theta_bits: 0x461c4000,
            prefill_chunk_tokens: 16,
            quant_group_size: 128,
            preferred_kernel: best_kernel(features),
            router_math: RouterMath::DeepSeekV4SqrtSoftplus,
            route_scale_bits: 0x3fc00000,
            num_hash_layers: 3,
            attention_kind: AttentionKind::DeepSeekV4Mla,
            o_groups: 8,
            o_lora_rank: 1024,
            hc_mult: 4,
            hc_sinkhorn_iters: 20,
            hc_eps_bits: 0x358637bd,
        }
    }

    /// The configuration of DeepSeek-V4-Flash. The rope base is ten thousand,
    /// the route scale one and a half, and the epsilon a millionth.
    pub fn deepseek_v4_flash(features: CpuFeatures) -> (config: Self)
        ensures
            config == Self::deepseek_v4(features),
    {
        ComputeConfig {
            hidden_size: DEEPSEEK_V4_HIDDEN_SIZE,
            intermediate_size: DEEPSEEK_V4_EXPERT_INTERMEDIATE_SIZE,
            num_attention_heads: 64,
            num_kv_heads: 1,
            qk_rope_head_dim: 64,
            qk_nope_head_dim: 448,
            v_head_dim: 512,
            q_lora_rank: 1024,
            kv_lora_rank: 448,
            rope_theta_bits: 0x461c4000,
            prefill_chunk_tokens: 16,
            quant_group_size: 128,
            preferred_kernel: detect_best_kernel(features),
            router_math: RouterMath::DeepSeekV4SqrtSoftplus,
            route_scale_bits: 0x3fc00000,
            num_hash_layers: 3,
            attention_kind: AttentionKind::DeepSeekV4Mla,
            o_groups: 8,
            o_lora_rank: 1024,
            hc_mult: 4,
            hc_sinkhorn_iters: 20,
            hc_eps_bits: 0x358637bd,
        }
    }

    /// Length of one query or key head.
    pub open spec fn qk_head_dim(self) -> int {
        saturated(self.qk_nope_head_dim + self.qk_rope_head_dim)
    }

    /// Length of all query heads.
    pub open spec fn q_full(self) -> int {
        saturated(self.num_attention_heads * self.qk_head_dim())
    }

    /// The buffer that holds the queries first and the values later.
    pub open spec fn q_or_value(self) -> int {
        larger(self.q_full(), saturated(self.num_kv_heads * self.v_head_dim))
    }

    /// Scratch of the low-rank attention with expanded keys and values.
    pub open spec fn probe_scratch(self) -> int {
        let kv_a = saturated(self.kv_lora_rank + self.qk_rope_head_dim);
        let kv_full = saturated(
            self.num_kv_heads * saturated(self.qk_nope_head_dim + self.v_head_dim),
        );
        saturated(
            saturated(saturated(self.q_lora_rank + self.q_or_value()) + kv_a) + kv_full,
        )
    }

    /// Scratch of latent attention; none where the model has none.
    pub open spec fn mla_scratch(self) -> int {
        if self.attention_kind == AttentionKind::DeepSeekV4Mla {
            saturated(
                saturated(
                    saturated(saturated(self.q_lora_rank + self.q_full()) + self.qk_head_dim())
                        + self.q_full(),
                ) + saturated(self.o_groups * self.o_lora_rank),
            )
        } else {
            0
        }
    }

    /// Scratch of the experts.
    pub open spec fn moe_scratch(self) -> int {
        saturated(saturated(self.hidden_size * 4) + saturated(self.intermediate_size * 2))
    }

    /// Scratch of latent attention with the hyper-connections around it.
    pub open spec fn mhc_scratch(self) -> int {
        if self.hc_mult > 1 {
            saturated(
                saturated(saturated(self.hc_mult * self.hidden_size) + self.hidden_size) + larger(
                    self.mla_scratch(),
                    self.moe_scratch(),
                ),
            )
        } else {
            self.mla_scratch()
        }
    }

    /// Scratch for one layer of prefill: attention or experts, whichever needs
    /// more, beside the residual.
    pub open spec fn prefill_scratch(self) -> int {
        let attention = larger(
            larger(
                larger(
                    self.hidden_size as int,
                    saturated(self.q_lora_rank + self.q_or_value()),
                ),
                self.probe_scratch(),
            ),
            self.mhc_scratch(),
        );
        larger(larger(saturated(attention + self.hidden_size), self.moe_scratch()), 1)
    }

    /// Scratch for one layer of prefill.
    #[verifier::rlimit(30)]
    pub fn prefill_scratch_f32(&self) -> (scratch: usize)
        ensures
            scratch == self.prefill_scratch(),
    {
        let qk_head_dim: usize = self.qk_nope_head_dim.saturating_add(self.qk_rope_head_dim);
        let q_full: usize = saturating_product(self.num_attention_heads, qk_head_dim);
        let value_concat: usize = saturating_product(self.num_kv_heads, self.v_head_dim);
        let q_or_value: usize = larger_of(q_full, value_concat);
        let kv_a: usize = self.kv_lora_rank.saturating_add(self.qk_rope_head_dim);
        let kv_full: usize = saturating_product(
            self.num_kv_heads,
            self.qk_nope_head_dim.saturating_add(self.v_head_dim),
        );
        let mla: usize = if self.attention_kind == AttentionKind::DeepSeekV4Mla {
            self.q_lora_rank.saturating_add(q_full).saturating_add(qk_head_dim).saturating_add(
                q_full,
            ).saturating_add(saturating_product(self.o_groups, self.o_lora_rank))
        } else {
            0
        };
        let moe: usize = saturating_product(self.hidden_size, 4).saturating_add(
            saturating_product(self.intermediate_size, 2),
        );
        let mhc: usize = if self.hc_mult > 1 {
            saturating_product(self.hc_mult, self.hidden_size).saturating_add(
                self.hidden_size,
            ).saturating_add(larger_of(mla, moe))
        } else {
            mla
        };
        let queries: usize = self.q_lora_rank.saturating_add(q_or_value);
        let probe: usize = queries.saturating_add(kv_a).saturating_add(kv_full);
        let attention: usize = larger_of(
            larger_of(larger_of(self.hidden_size, queries), probe),
            mhc,
        );
        larger_of(larger_of(attention.saturating_add(self.hidden_size), moe), 1)
    }
}

/// The prefill scratch holds the residual and the buffers of either kind of
/// attention beside it, and the buffers of the experts.
pub proof fn law_prefill_scratch_covers_attention(config: ComputeConfig)
    requires
        config.prefill_scratch() < usize::MAX,
    ensures
        config.prefill_scratch() >= config.hidden_size + config.probe_scratch(),
        config.prefill_scratch() >= config.hidden_size + config.mla_scratch(),
        config.hc_mult > 1 ==> config.prefill_scratch() >= config.hc_mult * config.hidden_size
            + config.hidden_size + config.mla_scratch(),
        config.prefill_scratch() >= config.moe_scratch(),
{
    assert(config.hc_mult * config.hidden_size >= 0) by (nonlinear_arith);
}

/// What computing a layer went through.
#[derive(Clone, Copy, Debug, PartialEq, Eq, Structural)]
pub struct LayerComputeStats {
    pub dense_bytes: usize,
    pub expert_bytes: usize,
    pub experts: usize,
    pub dequantized_values: usize,
}

impl Default for LayerComputeStats {
    fn default() -> (stats: Self)
        ensures
            stats == (LayerComputeStats {
                dense_bytes: 0,
                expert_bytes: 0,
                experts: 0,
                dequantized_values: 0,
            }),
    {
        LayerComputeStats { dense_bytes: 0, expert_bytes: 0, experts: 0, dequantized_values: 0 }
    }
}

/// How to route the tokens of one layer.
#[derive(Clone, Copy, Debug, PartialEq, Eq, Structural)]
pub struct RouteOptions {
    pub math: RouterMath,
    pub route_scale_bits: u32,
    /// The input token, on layers that route by the static table.
    pub hash_token_id: Option<u32>,
}

impl Default for RouteOptions {
    fn default() -> (options: Self)
        ensures
            options == (RouteOptions {
                math: RouterMath::RawLogits,
                route_scale_bits: 0x3f800000,
                hash_token_id: None,
            }),
    {
        RouteOptions {
            math: RouterMath::RawLogits,
            route_scale_bits: 0x3f800000,
            hash_token_id: None,
        }
    }
}

impl RouteOptions {
    /// How a model routes a token at a layer: by the static table on its first
    /// layers.
    pub fn from_config(config: &ComputeConfig, physical_layer_id: u32, token_id: u32) -> (options:
        Self)
        ensures
            options == (RouteOptions {
                math: config.router_math,
                route_scale_bits: config.route_scale_bits,
                hash_token_id: if (physical_layer_id as usize) < config.num_hash_layers {
                    Some(token_id)
                } else {
                    None
                },
            }),
    {
        RouteOptions {
            math: config.router_math,
            route_scale_bits: config.route_scale_bits,
            hash_token_id: if (physical_layer_id as usize) < config.num_hash_layers {
                Some(token_id)
            } else {
                None
            },
        }
    }
}

/// Parameters of YaRN rope scaling, single-precision patterns but for the
/// length.
#[derive(Clone, Copy, Debug, PartialEq, Eq, Structural)]
pub struct YarnRope {
    pub factor_bits: u32,
    pub beta_fast_bits: u32,
    pub beta_slow_bits: u32,
    pub original_seq_len: usize,
}

/// The rope scaling of DeepSeek-V4-Flash: factor 16, betas 32 and 1.
pub open spec fn deepseek_v4_rope_scaling() -> YarnRope {
    YarnRope {
        factor_bits: 0x41800000,
        beta_fast_bits: 0x42000000,
        beta_slow_bits: 0x3f800000,
        original_seq_len: 65536,
    }
}

/// The rope scaling of DeepSeek-V4-Flash.
pub fn deepseek_v4_yarn() -> (yarn: YarnRope)
    ensures
        yarn == deepseek_v4_rope_scaling(),
{
    YarnRope {
        factor_bits: 0x41800000,
        beta_fast_bits: 0x42000000,
        beta_slow_bits: 0x3f800000,
        original_seq_len: 65536,
    }
}

/// The rope base of compressed layers, 160000.
pub const DEEPSEEK_V4_COMPRESS_ROPE_THETA: u32 = 0x481c4000;

/// Rope base and scaling of a layer: layers that compress use the long-context
/// rope, the others the plain one with base ten thousand.
pub fn deepseek_rope_for_layer(physical_layer_id: usize) -> (rope: (u32, Option<YarnRope>))
    ensures
        ratio_of(physical_layer_id as int) > 0 ==> rope == (
            DEEPSEEK_V4_COMPRESS_ROPE_THETA,
            Some(deepseek_v4_rope_scaling()),
        ),
        ratio_of(physical_layer_id as int) == 0 ==> rope == (0x461c4000u32, None::<YarnRope>),
{
    if compress_ratio(physical_layer_id) > 0 {
        (DEEPSEEK_V4_COMPRESS_ROPE_THETA, Some(deepseek_v4_yarn()))
    } else {
        (0x461c4000, None)
    }
}

/// Bytes of a row of `k` four-bit weights.
pub fn packed_i4_row_bytes(k: usize) -> (bytes: usize)
    ensures
        bytes == (k + 1) / 2,
{
    k / 2 + k % 2
}

/// Groups of `group_size` that cover `len` weights.
pub fn grouped_count(len: usize, group_size: usize) -> (groups: usize)
    requires
        group_size > 0,
        len + group_size - 1 <= usize::MAX,
    ensures
        groups == (len + group_size - 1) / group_size as int,
{
    (len + (group_size - 1)) / group_size
}

/// A layer routes by the static table exactly where it is one of the first that do,
/// and by the math and the scale of the model.
pub proof fn law_first_layers_route_by_the_table(
    config: &ComputeConfig,
    layer: u32,
    token_id: u32,
    options: RouteOptions,
)
    requires
        call_ensures(RouteOptions::from_config, (config, layer, token_id), options),
    ensures
        options.math == config.router_math,
        options.route_scale_bits == config.route_scale_bits,
        layer < config.num_hash_layers && layer <= usize::MAX ==> options.hash_token_id == Some(
            token_id,
        ),
        layer >= config.num_hash_layers && layer <= usize::MAX ==> options.hash_token_id is None,
{
}

/// Layers that compress rotate by another base than those that do not, and scale the
/// rotation.
pub proof fn law_compressing_layers_rotate_apart(layer: usize, rope: (u32, Option<YarnRope>))
    requires
        call_ensures(deepseek_rope_for_layer, (layer,), rope),
    ensures
        rope.1 is Some == (2 <= layer <= 42),
        rope.0 == if 2 <= layer <= 42 {
            0x481c4000u32
        } else {
            0x461c4000u32
        },
{
    crate::compute::compressor::law_layers_take_turns(layer as int);
}

/// Groups cover all values, and none is empty; packed rows hold two values to a
/// byte.
pub proof fn law_groups_cover_their_values(
    len: usize,
    group_size: usize,
    groups: usize,
    bytes: usize,
)
    requires
        group_size > 0,
        len + group_size - 1 <= usize::MAX,
        call_ensures(grouped_count, (len, group_size), groups),
        call_ensures(packed_i4_row_bytes, (len,), bytes),
    ensures
        len <= groups * group_size < len + group_size,
        len <= 2 * bytes <= len + 1,
{
    let size = group_size as int;
    vstd::arithmetic::div_mod::lemma_fundamental_div_mod(len + size - 1, size);
    vstd::arithmetic::div_mod::lemma_mod_bound(len + size - 1, size);
    assert(size * groups == groups * size) by (nonlinear_arith);
}

} // verus!
