//! Blocks, experts, routing, attention and the ends of the model on small
//! inputs. The library plans what is read; the sums are taken here.

use zc_infer_core::compute::act_quant::{fp8_e4m3_sorted_lut, lut_neighbours};
use zc_infer_core::compute::compressor::{
    ape_row, compress_ratio, deepseek_compressor_speculation_begin,
    deepseek_compressor_speculation_commit, deepseek_compressor_speculation_rollback,
    deepseek_compressor_state_export, deepseek_compressor_state_import, overlap_factor,
    plan_compressor_projection, CompressorStates, FeedStep,
};
use zc_infer_core::compute::config::{
    deepseek_rope_for_layer, deepseek_v4_yarn, glm52_indexer_bypass_status, packed_i4_row_bytes,
    smaller_of, AttentionKind, ComputeConfig, CpuFeatures, CpuKernel, LayerComputeStats,
    RouteOptions, RouterMath, YarnRope, DEEPSEEK_V4_COMPRESS_ROPE_THETA, GLM52_INDEX_TOPK,
};
use zc_infer_core::compute::dequant::{dequantize_block_simd, QuantBlockParams};
use zc_infer_core::compute::embedding::{plan_token_embedding, EmbeddingRow};
use zc_infer_core::compute::error::{ComputeError, DiskQuantFormat};
use zc_infer_core::compute::experts::{
    plan_expert_block, plan_plain_product, plan_shared_expert, ExpertPlan, GatedExpert,
    PlainProduct, SharedPlan,
};
use zc_infer_core::compute::fused_gemv::{
    decode_i4_affine_at, validate_fused_gemv_args, GemvParts,
};
use zc_infer_core::compute::gemv::{
    check_fp8_output, check_int4_args, i4_nibble_at, Bf16Rows, Fp8Rows, GemvPlan, Int4Rows,
};
use zc_infer_core::compute::glm_attention::{append_glm_dsa_kv_cache, plan_causal_attention};
use zc_infer_core::compute::hc::{
    check_hc_head, check_hc_post, check_hc_pre, check_hc_split, hc_mix_offsets, row_of,
};
use zc_infer_core::compute::kv_cache::KVCache;
use zc_infer_core::compute::lm_head::{finish_lm_head, plan_lm_head, HeadWeights};
use zc_infer_core::compute::lookup::{
    deepseek_v4_fp4_expert_from_quant_block, dense_math_profile, is_non_compute_dense_block,
    norm_name_matches_marker,
};
use zc_infer_core::compute::mla::{
    count_mla_values, plan_mla_inputs, plan_mla_outputs, read_window,
};
use zc_infer_core::compute::moe::{
    plan_active_experts, route_weights_valid, weight_sum_usable,
};
use zc_infer_core::compute::mtp::{plan_mtp_draft, plan_mtp_head, NormedProduct};
use zc_infer_core::compute::norm::{plan_weighted_rms_norm, NormPlan};
use zc_infer_core::compute::quant_block::{
    parse_quant_block, QuantBlockLayout, QuantTensorLayout, TensorRole,
};
use zc_infer_core::compute::rope::{
    check_rope, check_rope_freqs, check_rope_heads, rope_head_span,
};
use zc_infer_core::compute::routing::{
    finalizes_weights, plan_route_experts, plan_route_rule, plan_router_top_experts,
    route_candidates, route_sum_usable, select_hashed, select_scored, select_top_experts,
    ExpertRoute, RouteRule, RouteStart, RouterPlan,
};
use zc_infer_core::compute::synthetic::{
    build_synthetic_quant_block, mtp_synthetic_role_code, SyntheticTensor,
};
use zc_infer_core::compute::values::{bf16_to_f32, HcParams};
use zc_infer_core::deepseek_v4::{
    decode_fp4_e2m1, decode_fp8_e4m3, decode_ue8m0_scale, fp4_row_group,
    fp4_rows_split_into_groups, fp4_weight_at, fp8_e4m3_base_lut, route_weights_divided,
    select_experts_by_score, ue8m0_scale_lut, validate_fp4_expert, validate_fp4_matvec,
    DeepSeekV4Fp4Expert, DeepSeekV4KernelError, Fp4Matvec, FP4_E2M1_BASE_LUT,
    QUANT_DEEPSEEK_BF16_AUX, QUANT_DEEPSEEK_F32_AUX, QUANT_DEEPSEEK_FP4_E2M1_PACKED,
    QUANT_DEEPSEEK_UE8M0_SCALE,
};
use zc_infer_core::model_format::{
    QUANT_BLOCK_HEADER_SIZE, QUANT_BLOCK_MAGIC, QUANT_BLOCK_VERSION, QUANT_TENSOR_RECORD_SIZE,
};
use zc_infer_core::order::push_topk_candidate;

const DEEPSEEK_V4_SWIGLU_LIMIT: f32 = 10.0;

fn no_features() -> CpuFeatures {
    CpuFeatures { avx512f: false, avx2: false, fma: false }
}

fn test_config(hidden: usize, intermediate: usize, heads: usize, rope: usize) -> ComputeConfig {
    ComputeConfig {
        hidden_size: hidden,
        intermediate_size: intermediate,
        num_attention_heads: heads,
        num_kv_heads: heads,
        qk_rope_head_dim: rope,
        qk_nope_head_dim: 0,
        v_head_dim: rope,
        q_lora_rank: rope,
        kv_lora_rank: rope,
        rope_theta_bits: 10_000.0f32.to_bits(),
        prefill_chunk_tokens: 1,
        quant_group_size: 4,
        preferred_kernel: CpuKernel::Scalar,
        router_math: RouterMath::RawLogits,
        route_scale_bits: 1.0f32.to_bits(),
        num_hash_layers: 0,
        attention_kind: AttentionKind::GlmDsaProbe,
        o_groups: 0,
        o_lora_rank: 0,
        hc_mult: 1,
        hc_sinkhorn_iters: 20,
        hc_eps_bits: 1.0e-6f32.to_bits(),
    }
}

fn lcg_bytes(seed: u32, count: usize) -> Vec<u8> {
    let mut state = seed;
    (0..count)
        .map(|_| {
            state = state.wrapping_mul(1664525).wrapping_add(1013904223);
            (state >> 24) as u8
        })
        .collect()
}

fn lcg_f32(seed: u32, count: usize) -> Vec<f32> {
    let mut state = seed;
    (0..count)
        .map(|_| {
            state = state.wrapping_mul(1664525).wrapping_add(1013904223);
            ((state >> 16) as f32 / 65536.0) - 0.5
        })
        .collect()
}

fn fp8_value(byte: u8) -> f32 {
    f32::from_bits(decode_fp8_e4m3(byte))
}

fn scale_value(byte: u8) -> f32 {
    f32::from_bits(decode_ue8m0_scale(byte))
}

#[test]
fn fp8_dot_row_matches_per_element_reference() {
    let cols = 200usize;
    let groups = 4usize;
    let col_group = cols / groups;
    let weight = lcg_bytes(0xbeef, cols);
    let scales: Vec<u8> = (0..groups).map(|g| 120 + g as u8).collect();
    let input = lcg_f32(0xcafe, cols);
    let fast = fp8_ue8m0_dot_row(&weight, &scales, col_group, &input);
    let mut reference = 0.0f64;
    for col in 0..cols {
        let scale = scale_value(scales[col / col_group]);
        reference += (fp8_value(weight[col]) * scale * input[col]) as f64;
    }
    assert!(
        (fast as f64 - reference).abs() <= 1e-4 * reference.abs().max(1.0),
        "fast {fast} vs reference {reference}"
    );
}

#[test]
fn bf16_dot_row_matches_per_element_reference() {
    let count = 37usize;
    let input = lcg_f32(0x1234, count);
    let values = lcg_f32(0x5678, count);
    let mut row_data = Vec::with_capacity(count * 2);
    let mut reference = 0.0f64;
    for (index, value) in values.iter().enumerate() {
        let raw = (value.to_bits() >> 16) as u16;
        row_data.extend_from_slice(&raw.to_le_bytes());
        assert_eq!(bf16_to_f32(raw), (raw as u32) << 16);
        reference += (f32::from_bits(bf16_to_f32(raw)) * input[index]) as f64;
    }
    let fast = dot_bf16_row(&row_data, &input).unwrap();
    assert!(
        (fast as f64 - reference).abs() <= 1e-4 * reference.abs().max(1.0),
        "fast {fast} vs reference {reference}"
    );
}

fn dequantized(packed: &[u8], params: QuantBlockParams<'_>, count: usize) -> Vec<f32> {
    let (kernel, values) =
        dequantize_block_simd(packed, params, count, no_features()).unwrap();
    assert_eq!(kernel, CpuKernel::Scalar);
    values.into_iter().map(|(value, scale)| value as f32 * f32::from_bits(scale)).collect()
}

#[test]
fn scalar_int4_symmetric_dequantizes_low_then_high_nibble() {
    let packed = [0x1f, 0x87];
    let scales = [0.5f32.to_bits()];
    let params = QuantBlockParams {
        format: DiskQuantFormat::Int4Symmetric,
        group_size: 4,
        scales: &scales,
        zero_points: &[],
    };
    assert_eq!(dequantized(&packed, params, 4), [-0.5, 0.5, 3.5, -4.0]);
}

#[test]
fn scalar_int4_affine_uses_group_zero_points() {
    let packed = [0x10, 0x32];
    let scales = [1.0f32.to_bits(), 2.0f32.to_bits()];
    let params = QuantBlockParams {
        format: DiskQuantFormat::Int4Affine,
        group_size: 2,
        scales: &scales,
        zero_points: &[1, 2],
    };
    assert_eq!(dequantized(&packed, params, 4), [-1.0, 0.0, 0.0, 2.0]);
}

fn fused_gemv(
    rows: usize,
    k: usize,
    input: &[f32],
    weights: &[u8],
    scales: &[f32],
    zeros: &[i8],
    group_size: usize,
) -> Vec<f32> {
    let parts =
        GemvParts { input: true, packed_weights: true, scales: true, zero_points: true, output: true };
    validate_fused_gemv_args(rows, k, group_size, parts).unwrap();
    (0..rows)
        .map(|row| {
            (0..k).fold(0.0f32, |acc, inner| {
                let weight = decode_i4_affine_at(weights, k, group_size, row, inner);
                let value = (weight.nibble as i32 - zeros[weight.group] as i32) as f32;
                acc + input[inner] * value * scales[weight.group]
            })
        })
        .collect()
}

#[test]
fn fused_scalar_i4_affine_gemv_matches_expected_dot_products() {
    let input = [1.0f32, 2.0, 3.0, 4.0];
    let weights = pack_i4_rows(&[&[1, 2, 3, 4], &[4, 3, 2, 1]]);
    let scales = [0.5f32, 1.0];
    let zeros = [0i8, 2];
    let output = fused_gemv(2, 4, &input, &weights, &scales, &zeros, 4);
    assert_close(output[0], 15.0);
    assert_close(output[1], 0.0);
}

#[test]
fn fused_kernel_dispatch_matches_scalar_reference() {
    let input = [1.0f32, -2.0, 3.5, 0.5, -1.0, 2.0, 1.5, -0.5, 4.0];
    let weights = pack_i4_rows(&[&[1, 2, 3, 4, 5, 6, 7, 8], &[8, 7, 6, 5, 4, 3, 2, 1]]);
    let scales = [0.25f32, 0.5, 0.125, 0.75];
    let zeros = [1i8, 2, 3, 4];
    let scalar = fused_gemv(2, 8, &input, &weights, &scales, &zeros, 4);
    let mut by_row = [0.0f32; 2];
    for (row, slot) in by_row.iter_mut().enumerate() {
        for inner in 0..8 {
            let byte = weights[row * 4 + inner / 2];
            let nibble = if inner % 2 == 0 { byte & 0x0f } else { byte >> 4 };
            let group = row * 2 + inner / 4;
            *slot += input[inner] * (nibble as f32 - zeros[group] as f32) * scales[group];
        }
    }
    assert_close(by_row[0], scalar[0]);
    assert_close(by_row[1], scalar[1]);
}

#[test]
fn parse_quant_block_reads_zcblk01_tensor_without_allocating() {
    let block = make_test_zcblk01();
    let layout = parse_quant_block(&block).unwrap();
    let tensor = layout.first_tensor().unwrap();

    assert_eq!(layout.tensor_count(), 1);
    assert_eq!(tensor.quant_format, 4);
    assert_eq!(tensor.name, b"expert.up_proj.weight");
    assert_eq!(tensor.role(), TensorRole::UpProj);
    assert_eq!(tensor.shape.rank(), 2);
    assert_eq!(tensor.shape.dim(0).unwrap(), 2);
    assert_eq!(tensor.shape.dim(1).unwrap(), 4);
    assert_eq!(tensor.data, &[0x21, 0x43, 0x34, 0x12]);
    assert_close(f32::from_bits(tensor.scale_bits), 0.5);
    assert_close(f32::from_bits(tensor.zero_point_bits), 0.0);
}

#[test]
fn compute_quant_block_uses_zcblk01_metadata_for_tensorwise_gemv() {
    let block = make_test_zcblk01();
    let mut hidden = [1.0f32, 2.0, 3.0, 4.0];
    let config = test_config(4, 8, 1, 4);
    let layout = parse_quant_block(&block).unwrap();
    let plan = plan_plain_product(&layout, hidden.len(), 8, &config).unwrap();
    run_plain(&plan, &mut hidden).unwrap();

    assert_close(hidden[0], 15.0);
    assert_close(hidden[1], 10.0);
}

#[test]
fn kv_cache_uses_caller_provided_scratch() {
    let required = KVCache::<f32>::required_f32(2, 3, 2, 4).unwrap();
    let mut storage = vec![0.0f32; required];
    let mut cache = KVCache::from_scratch(&mut storage, 2, 3, 2, 4, 0.0).unwrap();
    let key = [1.0f32; 8];
    let value = [2.0f32; 8];

    cache.append(1, 2, &key, &value).unwrap();

    assert_eq!(cache.key_slice(1, 2).unwrap(), &key);
    assert_eq!(cache.value_slice(1, 2).unwrap(), &value);
    assert_eq!(cache.cursor, 3);
}

#[test]
fn causal_attention_reads_history_from_kv_cache() {
    let mut config = test_config(4, 8, 1, 2);
    config.qk_nope_head_dim = 2;
    config.v_head_dim = 4;
    config.q_lora_rank = 4;
    config.kv_lora_rank = 4;
    let required = KVCache::<f32>::required_f32(1, 2, 1, 4).unwrap();
    let mut storage = vec![0.0f32; required];
    let mut cache = KVCache::from_scratch(&mut storage, 1, 2, 1, 4, 0.0).unwrap();
    cache.append(0, 0, &[1.0, 0.0, 0.0, 0.0], &[10.0, 0.0, 0.0, 0.0]).unwrap();
    cache.append(0, 1, &[0.0, 8.0, 0.0, 0.0], &[0.0, 20.0, 0.0, 0.0]).unwrap();

    let query = [0.0f32, 8.0, 0.0, 0.0];
    let mut out = [0.0f32; 4];
    causal_attention_from_kv_cache(0, 1, &query, &cache, &mut out, &config).unwrap();

    assert!(out[1] > 19.0, "expected current token value to dominate: {out:?}");
    assert!(out[0] < 1.0, "expected previous token value to be suppressed: {out:?}");
}

#[test]
fn glm_dsa_append_expands_shared_rope_key_per_head() {
    let mut config = test_config(8, 16, 2, 2);
    config.qk_nope_head_dim = 2;
    config.v_head_dim = 4;
    config.q_lora_rank = 4;
    config.kv_lora_rank = 4;
    let required = KVCache::<f32>::required_f32(1, 1, 2, 4).unwrap();
    let mut storage = vec![0.0f32; required];
    let mut cache = KVCache::from_scratch(&mut storage, 1, 1, 2, 4, 0.0).unwrap();
    let kv_a = [0.0f32, 0.0, 0.0, 0.0, 7.0, 9.0];
    let kv_full = [1.0f32, 2.0, 10.0, 11.0, 12.0, 13.0, 3.0, 4.0, 20.0, 21.0, 22.0, 23.0];

    append_glm_dsa_kv_cache(0, 0, &kv_a, &kv_full, 0.0, &mut cache, &config).unwrap();

    assert_eq!(cache.key_slice(0, 0).unwrap(), &[1.0, 2.0, 7.0, 9.0, 3.0, 4.0, 7.0, 9.0]);
    assert_eq!(
        cache.value_slice(0, 0).unwrap(),
        &[10.0, 11.0, 12.0, 13.0, 20.0, 21.0, 22.0, 23.0]
    );
}

#[test]
fn glm52_prefill_scratch_covers_q_kv_and_value_buffers() {
    let config = ComputeConfig::glm52_like(6144, no_features());
    let qk_head_dim = config.qk_nope_head_dim + config.qk_rope_head_dim;
    let q_full = config.num_attention_heads * qk_head_dim;
    let value_concat = config.num_kv_heads * config.v_head_dim;
    let kv_a = config.kv_lora_rank + config.qk_rope_head_dim;
    let kv_full = config.num_kv_heads * (config.qk_nope_head_dim + config.v_head_dim);
    let required = config.q_lora_rank + q_full.max(value_concat) + kv_a + kv_full;
    assert_eq!(required, 47_680);
    assert!(config.prefill_scratch_f32() >= required);
}

#[test]
fn rope_position_zero_is_identity() {
    let mut values = vec![1.0, 2.0, 3.0, 4.0];
    apply_rope_interleaved_in_place(&mut values, 0, 4, 10_000.0).unwrap();
    assert_close(values[0], 1.0);
    assert_close(values[1], 2.0);
    assert_close(values[2], 3.0);
    assert_close(values[3], 4.0);
}

#[test]
fn rope_interleaved_rotates_each_head_prefix() {
    let mut values = vec![1.0, 0.0, 9.0, 9.0, 0.0, 1.0, 8.0, 8.0];
    apply_rope_to_heads_interleaved(&mut values, 2, 4, 2, 1, 10_000.0).unwrap();
    let (sin, cos) = 1.0f32.sin_cos();
    assert_close(values[0], cos);
    assert_close(values[1], sin);
    assert_close(values[2], 9.0);
    assert_close(values[3], 9.0);
    assert_close(values[4], -sin);
    assert_close(values[5], cos);
    assert_close(values[6], 8.0);
    assert_close(values[7], 8.0);
}

#[test]
fn lm_head_argmax_reads_zcblk01_logits() {
    let block = make_single_tensor_zcblk01(
        b"lm_head.weight",
        TensorRole::LmHead,
        &[2, 2],
        &[0x01, 0x20],
        1.0,
        0.0,
    );
    let hidden = [1.0f32, 2.0];
    let (token, _) =
        lm_head_argmax_score_chunked_from_block(&block, &hidden, 2).unwrap().unwrap();
    assert_eq!(token, 1);
    let mut logits = lm_head_topk_score_chunked_from_block(&block, &hidden, 2, 2).unwrap();
    logits.sort_by_key(|(token, _)| *token);
    assert_close(logits[0].1, 1.0);
    assert_close(logits[1].1, 4.0);
}

#[test]
fn lm_head_argmax_streams_rows_in_chunks() {
    let block = make_single_tensor_zcblk01(
        b"lm_head.weight",
        TensorRole::LmHead,
        &[4, 2],
        &pack_i4_rows(&[&[1, 0], &[0, 2], &[3, 3], &[2, 1]]),
        1.0,
        0.0,
    );
    let hidden = [1.0f32, 2.0];
    let parts = plan_lm_head(&block, 2, 2).unwrap();
    assert_eq!(parts.len(), 1);
    assert_eq!(parts[0].chunk_rows(0), 2);
    assert_eq!(parts[0].chunk_rows(3), 1);
    let (token, _) =
        lm_head_argmax_score_chunked_from_block(&block, &hidden, 2).unwrap().unwrap();
    assert_eq!(token, 2);
}

#[test]
fn lm_head_topk_streams_rows_in_chunks() {
    let block = make_single_tensor_zcblk01(
        b"lm_head.weight",
        TensorRole::LmHead,
        &[4, 2],
        &pack_i4_rows(&[&[1, 0], &[0, 2], &[3, 3], &[2, 1]]),
        1.0,
        0.0,
    );
    let hidden = [1.0f32, 2.0];
    let top = lm_head_topk_score_chunked_from_block(&block, &hidden, 2, 3).unwrap();

    assert_eq!(top.len(), 3);
    assert_eq!(top[0].0, 2);
    assert_close(top[0].1, 9.0);
    assert_eq!(top[1].0, 3);
    assert_close(top[1].1, 4.0);
    assert_eq!(top[2].0, 1);
    assert_close(top[2].1, 4.0);
}

#[test]
fn lm_head_topk_reads_deepseek_bf16_head() {
    let block = make_single_tensor_zcblk01_with_format(
        b"head.weight",
        TensorRole::LmHead,
        &[3, 2],
        &bf16_rows(&[&[1.0, 0.0], &[0.0, 2.0], &[2.0, 2.0]]),
        11,
        QUANT_DEEPSEEK_BF16_AUX,
        1.0,
        0.0,
    );
    let hidden = [1.0f32, 1.0];
    let top = lm_head_topk_score_chunked_from_block(&block, &hidden, 1, 2).unwrap();

    assert_eq!(top.len(), 2);
    assert_eq!(top[0].0, 2);
    assert_close(top[0].1, 4.0);
    assert_eq!(top[1].0, 1);
    assert_close(top[1].1, 2.0);
}

#[test]
fn lm_head_argmax_returns_global_row_for_shard() {
    let block = make_single_tensor_zcblk01(
        b"lm_head.weight.rows_100_104",
        TensorRole::LmHead,
        &[4, 2],
        &pack_i4_rows(&[&[1, 0], &[0, 2], &[3, 3], &[2, 1]]),
        1.0,
        0.0,
    );
    let hidden = [1.0f32, 2.0];
    let (token, _) =
        lm_head_argmax_score_chunked_from_block(&block, &hidden, 2).unwrap().unwrap();
    assert_eq!(token, 102);
}

#[test]
fn global_embed_block_is_not_a_compute_layer() {
    let block = make_single_tensor_zcblk01(
        b"model.embed_tokens.weight",
        TensorRole::Embed,
        &[2, 4],
        &[0x10, 0x32, 0x54, 0x76],
        1.0,
        0.0,
    );

    assert!(is_non_compute_dense_block(&block).unwrap());
}

#[test]
fn dense_math_profile_detects_shared_expert_gap_inputs() {
    let block = make_two_tensor_zcblk01(
        (
            b"model.layers.3.self_attn.q_a_proj.weight",
            TensorRole::QProj,
            &[2, 2],
            &pack_i4_rows(&[&[1, 0], &[0, 1]]),
            1.0,
            0.0,
        ),
        (
            b"model.layers.3.mlp.shared_experts.gate_proj.weight",
            TensorRole::SharedExpert,
            &[2, 2],
            &pack_i4_rows(&[&[2, 0], &[0, 2]]),
            1.0,
            0.0,
        ),
    );

    let profile = dense_math_profile(&block).unwrap();

    assert!(profile.has_attention);
    assert!(profile.has_shared_expert);
    assert!(!profile.has_router);
    assert!(!profile.has_indexer);
    assert_eq!(profile.norm_tensors, 0);
    assert!(!is_non_compute_dense_block(&block).unwrap());
}

#[test]
fn dense_math_profile_detects_indexer_for_explicit_bypass() {
    let block = make_single_tensor_zcblk01(
        b"model.layers.3.self_attn.indexer.weight",
        TensorRole::Unknown,
        &[2, 2],
        &pack_i4_rows(&[&[1, 0], &[0, 1]]),
        1.0,
        0.0,
    );

    let profile = dense_math_profile(&block).unwrap();

    assert!(profile.has_indexer);
}

#[test]
fn glm52_indexer_bypass_is_equivalent_until_topk() {
    assert_eq!(
        glm52_indexer_bypass_status(GLM52_INDEX_TOPK),
        ("not_required_context_le_topk", true)
    );
    assert_eq!(
        glm52_indexer_bypass_status(GLM52_INDEX_TOPK + 1),
        ("bypassed_long_context", false)
    );
}

#[test]
fn shared_expert_dense_branch_computes_gate_up_down() {
    let dense = make_three_tensor_zcblk01(
        (
            b"model.layers.3.mlp.shared_experts.gate_proj.weight",
            TensorRole::SharedExpert,
            &[2, 2],
            &pack_i4_rows(&[&[1, 0], &[0, 1]]),
            1.0,
            0.0,
        ),
        (
            b"model.layers.3.mlp.shared_experts.up_proj.weight",
            TensorRole::SharedExpert,
            &[2, 2],
            &pack_i4_rows(&[&[1, 0], &[0, 1]]),
            1.0,
            0.0,
        ),
        (
            b"model.layers.3.mlp.shared_experts.down_proj.weight",
            TensorRole::SharedExpert,
            &[2, 2],
            &pack_i4_rows(&[&[1, 0], &[0, 1]]),
            1.0,
            0.0,
        ),
    );
    let mut hidden = [1.0f32, 1.0];
    let config = test_config(2, 2, 1, 2);
    let mut stats = LayerComputeStats::default();

    let applied =
        compute_shared_expert_from_dense(&dense, &mut hidden, 16, &config, &mut stats).unwrap();

    let silu_one = 1.0 / (1.0 + (-1.0f32).exp());
    assert!(applied);
    assert_close(hidden[0], silu_one);
    assert_close(hidden[1], silu_one);
    assert!(stats.dequantized_values > 0);
}

#[test]
fn router_selection_skips_rank1_gate_bias() {
    let block = make_two_tensor_zcblk01(
        (
            b"model.layers.3.mlp.gate.e_score_correction_bias",
            TensorRole::Router,
            &[2],
            &[0x10],
            1.0,
            0.0,
        ),
        (
            b"model.layers.3.mlp.gate.weight",
            TensorRole::Router,
            &[2, 2],
            &pack_i4_rows(&[&[1, 0], &[0, 2]]),
            1.0,
            0.0,
        ),
    );
    let hidden = [1.0f32, 2.0];
    let mut scratch = [0.0f32; 2];

    let routes = route_experts_from_dense_block(
        &block,
        &hidden,
        1,
        &[0, 1],
        &mut scratch,
        RouteOptions::default(),
    )
    .unwrap()
    .unwrap();

    assert_eq!(routes.len(), 1);
    assert_eq!(routes[0].expert_id, 1);
}

#[test]
fn router_selection_skips_tid2eid_table_with_non_hidden_cols() {
    let block = make_two_tensor_zcblk01(
        (
            b"layers.3.ffn.gate.tid2eid",
            TensorRole::Router,
            &[4, 3],
            &pack_i4_rows(&[&[1, 1, 1], &[1, 1, 1], &[1, 1, 1], &[1, 1, 1]]),
            1.0,
            0.0,
        ),
        (
            b"layers.3.ffn.gate.weight",
            TensorRole::Router,
            &[2, 2],
            &pack_i4_rows(&[&[1, 0], &[0, 2]]),
            1.0,
            0.0,
        ),
    );
    let hidden = [1.0f32, 2.0];
    // Room for the router rows, not for those of the table.
    let mut scratch = [0.0f32; 2];

    let routes = route_experts_from_dense_block(
        &block,
        &hidden,
        1,
        &[0, 1],
        &mut scratch,
        RouteOptions::default(),
    )
    .unwrap()
    .unwrap();
    assert_eq!(routes.len(), 1);
    assert_eq!(routes[0].expert_id, 1);

    let probe = router_top_experts_from_dense_block(&block, &hidden, 2, 2).unwrap().unwrap();
    assert_eq!(probe.len(), 2);
    assert_eq!(probe[0].expert_id, 1);
}

#[test]
fn router_probe_scores_all_router_rows() {
    let block = make_single_tensor_zcblk01(
        b"model.layers.3.mlp.gate.weight",
        TensorRole::Router,
        &[3, 2],
        &pack_i4_rows(&[&[1, 0], &[0, 2], &[3, 3]]),
        1.0,
        0.0,
    );
    let hidden = [1.0f32, 2.0];

    let routes = router_top_experts_from_dense_block(&block, &hidden, 2, 3).unwrap().unwrap();

    assert_eq!(routes.len(), 2);
    assert_eq!(routes[0].expert_id, 2);
    assert_eq!(routes[1].expert_id, 1);
}

fn deepseek_route_options() -> RouteOptions {
    RouteOptions {
        math: RouterMath::DeepSeekV4SqrtSoftplus,
        route_scale_bits: 1.5f32.to_bits(),
        hash_token_id: None,
    }
}

fn i64_rows(rows: &[&[i64]]) -> Vec<u8> {
    let mut out = Vec::new();
    for row in rows {
        for value in *row {
            out.extend_from_slice(&value.to_le_bytes());
        }
    }
    out
}

fn f32_values(values: &[f32]) -> Vec<u8> {
    let mut out = Vec::new();
    for value in values {
        out.extend_from_slice(&value.to_le_bytes());
    }
    out
}

fn weight_of(route: &ExpertRoute) -> f32 {
    f32::from_bits(route.score_bits)
}

#[test]
fn deepseek_router_weights_are_sqrtsoftplus_sum_normalized_and_scaled() {
    let block = make_single_tensor_zcblk01(
        b"layers.3.ffn.gate.weight",
        TensorRole::Router,
        &[2, 2],
        &pack_i4_rows(&[&[1, 0], &[0, 2]]),
        1.0,
        0.0,
    );
    let hidden = [1.0f32, 2.0];
    let mut scratch = [0.0f32; 2];

    let routes = route_experts_from_dense_block(
        &block,
        &hidden,
        2,
        &[0, 1],
        &mut scratch,
        deepseek_route_options(),
    )
    .unwrap()
    .unwrap();

    assert_eq!(routes.len(), 2);
    assert_eq!(routes[0].expert_id, 1);
    assert_eq!(routes[1].expert_id, 0);
    let s0 = (1f32.exp().ln_1p()).sqrt();
    let s1 = (4f32.exp().ln_1p()).sqrt();
    let sum = s0 + s1;
    assert_close(weight_of(&routes[0]), s1 / sum * 1.5);
    assert_close(weight_of(&routes[1]), s0 / sum * 1.5);
    let total: f32 = routes.iter().map(weight_of).sum();
    assert_close(total, 1.5);
}

#[test]
fn deepseek_router_bias_shifts_selection_but_not_weights() {
    let gate_data = pack_i4_rows(&[&[1, 0], &[0, 2]]);
    let bias_data = f32_values(&[10.0, 0.0]);
    let tensors = [
        (
            &b"layers.3.ffn.gate.weight"[..],
            TensorRole::Router,
            &[2u64, 2][..],
            &gate_data[..],
            12u16,
            4u16,
            1.0f32,
            0.0f32,
        ),
        (
            &b"layers.3.ffn.gate.bias"[..],
            TensorRole::Router,
            &[2u64][..],
            &bias_data[..],
            12u16,
            2405u16,
            1.0f32,
            0.0f32,
        ),
    ];
    let block = make_multi_tensor_zcblk01_with_formats(&tensors);
    let hidden = [1.0f32, 2.0];
    let mut scratch = [0.0f32; 2];

    let routes = route_experts_from_dense_block(
        &block,
        &hidden,
        1,
        &[0, 1],
        &mut scratch,
        deepseek_route_options(),
    )
    .unwrap()
    .unwrap();

    assert_eq!(routes.len(), 1);
    assert_eq!(routes[0].expert_id, 0);
    assert_close(weight_of(&routes[0]), 1.5);
}

#[test]
fn deepseek_hash_layer_routes_via_tid2eid_table() {
    let table = i64_rows(&[&[0, 0], &[0, 0], &[1, 0], &[0, 0]]);
    let gate_data = pack_i4_rows(&[&[1, 0], &[0, 2]]);
    let tensors = [
        (
            &b"layers.0.ffn.gate.tid2eid"[..],
            TensorRole::Router,
            &[4u64, 2][..],
            &table[..],
            9u16,
            2405u16,
            1.0f32,
            0.0f32,
        ),
        (
            &b"layers.0.ffn.gate.weight"[..],
            TensorRole::Router,
            &[2u64, 2][..],
            &gate_data[..],
            12u16,
            4u16,
            1.0f32,
            0.0f32,
        ),
    ];
    let block = make_multi_tensor_zcblk01_with_formats(&tensors);
    let hidden = [1.0f32, 2.0];
    let mut scratch = [0.0f32; 2];
    let options = RouteOptions { hash_token_id: Some(2), ..deepseek_route_options() };

    let routes =
        route_experts_from_dense_block(&block, &hidden, 2, &[0, 1], &mut scratch, options)
            .unwrap()
            .unwrap();

    assert_eq!(routes.len(), 2);
    assert_eq!(routes[0].expert_id, 1);
    assert_eq!(routes[1].expert_id, 0);
    let total: f32 = routes.iter().map(weight_of).sum();
    assert_close(total, 1.5);
}

#[test]
fn deepseek_mla_attention_single_token_uses_latent_kv_and_grouped_wo() {
    let identity4 = bf16_rows(&[
        &[1.0, 0.0, 0.0, 0.0],
        &[0.0, 1.0, 0.0, 0.0],
        &[0.0, 0.0, 1.0, 0.0],
        &[0.0, 0.0, 0.0, 1.0],
    ]);
    let wq_a = bf16_rows(&[&[1.0, 0.0, 0.0, 0.0], &[0.0, 1.0, 0.0, 0.0]]);
    let wq_b = bf16_rows(&[
        &[1.0, 0.0],
        &[0.0, 1.0],
        &[1.0, 0.0],
        &[0.0, 1.0],
        &[1.0, 0.0],
        &[0.0, 1.0],
        &[1.0, 0.0],
        &[0.0, 1.0],
    ]);
    let wo_a = bf16_rows(&[
        &[1.0, 0.0, 0.0, 0.0],
        &[0.0, 1.0, 0.0, 0.0],
        &[0.0, 0.0, 1.0, 0.0],
        &[1.0, 0.0, 0.0, 0.0],
        &[0.0, 1.0, 0.0, 0.0],
        &[0.0, 0.0, 1.0, 0.0],
    ]);
    let wo_b = bf16_rows(&[
        &[1.0, 0.0, 0.0, 0.0, 0.0, 0.0],
        &[0.0, 1.0, 0.0, 0.0, 0.0, 0.0],
        &[0.0, 0.0, 1.0, 0.0, 0.0, 0.0],
        &[0.0, 0.0, 0.0, 1.0, 0.0, 0.0],
    ]);
    let tensors = [
        (
            &b"layers.0.attn.wq_a.weight"[..],
            TensorRole::QProj,
            &[2u64, 4][..],
            &wq_a[..],
            11u16,
            QUANT_DEEPSEEK_BF16_AUX,
            1.0f32,
            0.0f32,
        ),
        (
            &b"layers.0.attn.wq_b.weight"[..],
            TensorRole::QProj,
            &[8u64, 2][..],
            &wq_b[..],
            11u16,
            QUANT_DEEPSEEK_BF16_AUX,
            1.0f32,
            0.0f32,
        ),
        (
            &b"layers.0.attn.wkv.weight"[..],
            TensorRole::KvProj,
            &[4u64, 4][..],
            &identity4[..],
            11u16,
            QUANT_DEEPSEEK_BF16_AUX,
            1.0f32,
            0.0f32,
        ),
        (
            &b"layers.0.attn.wo_a.weight"[..],
            TensorRole::OProj,
            &[6u64, 4][..],
            &wo_a[..],
            11u16,
            QUANT_DEEPSEEK_BF16_AUX,
            1.0f32,
            0.0f32,
        ),
        (
            &b"layers.0.attn.wo_b.weight"[..],
            TensorRole::OProj,
            &[4u64, 6][..],
            &wo_b[..],
            11u16,
            QUANT_DEEPSEEK_BF16_AUX,
            1.0f32,
            0.0f32,
        ),
    ];
    let block = make_multi_tensor_zcblk01_with_formats(&tensors);
    let layout = parse_quant_block(&block).unwrap();

    let mut config = test_config(4, 8, 2, 2);
    config.num_kv_heads = 1;
    config.qk_nope_head_dim = 2;
    config.v_head_dim = 4;
    config.router_math = RouterMath::DeepSeekV4SqrtSoftplus;
    config.route_scale_bits = 1.5f32.to_bits();
    config.num_hash_layers = 3;
    config.attention_kind = AttentionKind::DeepSeekV4Mla;
    config.o_groups = 2;
    config.o_lora_rank = 3;
    let mut hidden = [1.0f32, 2.0, 3.0, 4.0];
    let mut scratch = vec![0.0f32; config.prefill_scratch_f32()];
    let mut kv_storage = vec![0.0f32; KVCache::<f32>::required_f32(1, 2, 1, 4).unwrap()];
    let mut kv_cache = KVCache::from_scratch(&mut kv_storage, 1, 2, 1, 4, 0.0).unwrap();
    let mut compressors = CompressorStates::new();

    let values = compute_deepseek_v4_mla_attention(
        &layout,
        0,
        0,
        &mut hidden,
        &mut kv_cache,
        &mut compressors,
        &mut scratch,
        &config,
    )
    .unwrap();
    assert!(values > 0);

    let mean_square = (1.0f32 + 4.0 + 9.0 + 16.0) / 4.0;
    let inv_rms = 1.0 / (mean_square + 1.0e-6).sqrt();
    let mut kv = [1.0 * inv_rms, 2.0 * inv_rms, 3.0 * inv_rms, 4.0 * inv_rms];
    fp8_act_quant_dequant_in_place(&mut kv[..2], 64);
    let mut expected_out = [kv[0], kv[1], kv[2], kv[0]];
    fp8_act_quant_dequant_in_place(&mut expected_out, 64);
    assert_close(hidden[0], expected_out[0]);
    assert_close(hidden[1], expected_out[1]);
    assert_close(hidden[2], expected_out[2]);
    assert_close(hidden[3], expected_out[3]);
    let cached = kv_cache.key_slice(0, 0).unwrap();
    assert_close(cached[0], kv[0]);
    assert_close(cached[3], kv[3]);
}

#[test]
fn hc_sinkhorn_split_produces_doubly_normalized_comb() {
    let hc = 4;
    let mix_hc = (2 + hc) * hc;
    let mixes: Vec<f32> = (0..mix_hc).map(|i| (i as f32) * 0.1 - 1.0).collect();
    let scale = [0.5f32, 0.7, 0.9];
    let base: Vec<f32> = (0..mix_hc).map(|i| (i as f32) * 0.01).collect();

    let (pre, post, comb) =
        hc_split_sinkhorn_scalar(&mixes, &scale, &base, hc, 20, 1.0e-6).unwrap();

    assert_eq!(pre.len(), hc);
    assert_eq!(post.len(), hc);
    assert_eq!(comb.len(), hc * hc);
    for value in &pre {
        assert!(*value > 0.0 && *value < 1.0 + 1.0e-5);
    }
    for value in &post {
        assert!(*value > 0.0 && *value < 2.0);
    }
    for j in 0..hc {
        let row_sum: f32 = comb[j * hc..(j + 1) * hc].iter().sum();
        assert!((row_sum - 1.0).abs() < 1.0e-3, "row {j} sum {row_sum}");
    }
    for k in 0..hc {
        let col_sum: f32 = (0..hc).map(|j| comb[j * hc + k]).sum();
        assert!((col_sum - 1.0).abs() < 1.0e-3, "col {k} sum {col_sum}");
    }
}

#[test]
fn hc_pre_and_post_roundtrip_shapes() {
    let hc = 2;
    let hidden = 3;
    let hc_dim = hc * hidden;
    let mix_hc = (2 + hc) * hc;
    let mut fn_data = Vec::new();
    for j in 0..mix_hc {
        for d in 0..hc_dim {
            fn_data.extend_from_slice(&(((j + d) as f32) * 0.05).to_le_bytes());
        }
    }
    let params = HcParams {
        fn_data: &fn_data,
        scale: bits(&[0.4, 0.6, 0.8]),
        base: (0..mix_hc).map(|i| (i as f32 * 0.02).to_bits()).collect(),
        mix_hc,
        hc_dim,
    };
    let x: Vec<f32> = (0..hc_dim).map(|i| (i as f32) * 0.3 - 0.5).collect();
    let mut y = vec![0.0f32; hidden];

    let (post, comb) = hc_pre_into(&params, &x, &mut y, hc, hidden, 20, 1.0e-6).unwrap();
    assert!(y.iter().all(|value| value.is_finite()));

    let mut out = vec![0.0f32; hc_dim];
    hc_post_into(&y, &x, &post, &comb, &mut out, hc, hidden).unwrap();
    assert!(out.iter().all(|value| value.is_finite()));
    let expected = post[1] * y[0] + comb[1] * x[0] + comb[hc + 1] * x[hidden];
    assert_close(out[hidden], expected);
}

#[test]
fn inverse_rope_undoes_forward_rope() {
    let mut values = [0.3f32, -1.2, 0.7, 2.5];
    let original = values;
    apply_rope_interleaved_in_place(&mut values, 5, 4, 10_000.0).unwrap();
    apply_rope_interleaved_inverse_in_place(&mut values, 5, 4, 10_000.0).unwrap();
    for (actual, expected) in values.iter().zip(original.iter()) {
        assert_close(*actual, *expected);
    }
}

#[test]
fn fp8_act_quant_dequant_preserves_representable_values() {
    let mut values = [2.0f32, -1.0, 0.5, 0.25];
    fp8_act_quant_dequant_in_place(&mut values, 4);
    assert_close(values[0], 2.0);
    assert_close(values[1], -1.0);
    assert_close(values[2], 0.5);
    assert_close(values[3], 0.25);
}

#[test]
fn fp8_act_quant_dequant_rounds_to_e4m3_grid() {
    let mut values = [448.0f32, 300.0, 0.0, 0.0];
    fp8_act_quant_dequant_in_place(&mut values, 4);
    assert_close(values[0], 448.0);
    assert!((values[1] - 288.0).abs() < 1.0e-3 || (values[1] - 320.0).abs() < 1.0e-3);
    assert!(values[1] != 300.0);
}

#[test]
fn yarn_scales_low_frequencies_and_keeps_high_ones() {
    let theta = f32::from_bits(DEEPSEEK_V4_COMPRESS_ROPE_THETA);
    let factor = f32::from_bits(deepseek_v4_yarn().factor_bits);
    let plain = rope_inv_freqs(64, theta, None);
    let yarn = rope_inv_freqs(64, theta, Some(deepseek_v4_yarn()));
    assert_eq!(plain.len(), 32);
    assert_eq!(yarn.len(), 32);
    assert_close(yarn[0], plain[0]);
    assert_close(yarn[31], plain[31] / factor);
    let mid = 20usize;
    assert!(yarn[mid] < plain[mid]);
    assert!(yarn[mid] > plain[mid] / factor);
}

#[test]
fn deepseek_layer_rope_selection_follows_compress_ratios() {
    let theta = |layer: usize| f32::from_bits(deepseek_rope_for_layer(layer).0);
    let compressed = f32::from_bits(DEEPSEEK_V4_COMPRESS_ROPE_THETA);
    assert_eq!(compressed, 160_000.0);
    assert_eq!(theta(0), 10_000.0);
    assert!(deepseek_rope_for_layer(0).1.is_none());
    assert_eq!(theta(1), 10_000.0);
    assert_eq!(theta(2), compressed);
    assert!(deepseek_rope_for_layer(2).1.is_some());
    assert_eq!(theta(42), compressed);
    assert_eq!(theta(43), 10_000.0);
}

#[test]
fn rope_with_freqs_matches_plain_rope_and_inverts() {
    let inv = rope_inv_freqs(4, 10_000.0, None);
    let mut with_freqs = [0.3f32, -1.2, 0.7, 2.5];
    let mut plain = with_freqs;
    apply_rope_interleaved_with_freqs(&mut with_freqs, 7, &inv, false).unwrap();
    apply_rope_interleaved_in_place(&mut plain, 7, 4, 10_000.0).unwrap();
    for (a, b) in with_freqs.iter().zip(plain.iter()) {
        assert_close(*a, *b);
    }
    apply_rope_interleaved_with_freqs(&mut with_freqs, 7, &inv, true).unwrap();
    assert_close(with_freqs[0], 0.3);
    assert_close(with_freqs[3], 2.5);
}

#[test]
fn deepseek_fp4_expert_bridge_reads_zcblk_tensors() {
    let block = make_deepseek_fp4_test_expert_zcblk();
    let layout = parse_quant_block(&block).unwrap();
    let expert = deepseek_v4_fp4_expert_from_quant_block(&layout).unwrap();

    let input = [2.0f32, 3.0];
    let mut output = [0.0f32; 2];
    let mut scratch = [0.0f32; 4];
    deepseek_v4_fp4_expert_forward_scalar(expert, &input, &mut output, &mut scratch).unwrap();

    let mut hidden_q = [2.0 / (1.0 + (-2.0f32).exp()) * 3.0];
    fp8_act_quant_dequant_in_place(&mut hidden_q, 64);
    let hidden = hidden_q[0];
    assert_close(output[0], hidden);
    assert_close(output[1], 2.0 * hidden);
}

#[test]
fn deepseek_fp4_expert_dispatch_runs_from_compute_expert_block() {
    let block = make_deepseek_fp4_test_expert_zcblk();
    let mut hidden = [2.0f32, 3.0];
    let config = test_config(2, 1, 1, 2);
    let plan = plan_expert_block(&block, hidden.len(), 6, &config).unwrap();
    let values = run_expert(&plan, &mut hidden).unwrap();

    let mut expected_q = [2.0 / (1.0 + (-2.0f32).exp()) * 3.0];
    fp8_act_quant_dequant_in_place(&mut expected_q, 64);
    let expected = expected_q[0];
    assert_close(hidden[0], expected);
    assert_close(hidden[1], 2.0 * expected);
    assert_eq!(values, 12);
}

#[test]
fn deepseek_norm_names_match_glm_compat_markers() {
    assert!(norm_name_matches_marker("layers.0.attn_norm.weight", "input_layernorm"));
    assert!(norm_name_matches_marker("layers.0.ffn_norm.weight", "post_attention_layernorm"));
    assert!(norm_name_matches_marker("layers.0.attn.q_norm.weight", "q_a_layernorm"));
    assert!(norm_name_matches_marker("layers.0.attn.kv_norm.weight", "kv_a_layernorm"));
}

#[test]
fn multi_expert_aggregation_uses_route_weights() {
    let first = make_single_tensor_zcblk01(
        b"expert0.up_proj.weight",
        TensorRole::UpProj,
        &[2, 2],
        &pack_i4_rows(&[&[1, 0], &[0, 0]]),
        1.0,
        0.0,
    );
    let second = make_single_tensor_zcblk01(
        b"expert1.up_proj.weight",
        TensorRole::UpProj,
        &[2, 2],
        &pack_i4_rows(&[&[0, 0], &[0, 4]]),
        1.0,
        0.0,
    );
    let weights = [0.75f32, 0.25];
    let config = test_config(2, 4, 1, 2);
    let original = [1.0f32, 1.0];
    let plans = plan_active_experts(&[&first, &second], 2, 16, &config).unwrap();
    assert_eq!(plans.len(), 2);
    let sum: f32 = weights.iter().sum();
    assert!(route_weights_valid(&bits(&weights)));
    assert!(weight_sum_usable(&bits(&weights), sum.to_bits()));
    let mut hidden = [0.0f32; 2];
    for (plan, weight) in plans.iter().zip(weights) {
        let mut work = original;
        run_expert(plan, &mut work).unwrap();
        for (slot, value) in hidden.iter_mut().zip(work) {
            *slot += value * (weight / sum);
        }
    }

    let silu_one = 1.0 / (1.0 + (-1.0f32).exp());
    assert_close(hidden[0], silu_one * 0.75);
    assert_close(hidden[1], silu_one * 4.0 * 0.25);
}

#[test]
fn token_embedding_reads_requested_row() {
    let block = make_single_tensor_zcblk01(
        b"model.embed_tokens.weight",
        TensorRole::Embed,
        &[2, 4],
        &pack_i4_rows(&[&[1, 2, 3, 4], &[5, 6, 7, 8]]),
        0.5,
        0.0,
    );
    let mut hidden = [0.0f32; 4];

    let found = token_embedding_from_block(&block, 1, &mut hidden).unwrap();

    assert!(found);
    assert_close(hidden[0], 2.5);
    assert_close(hidden[1], 3.0);
    assert_close(hidden[2], 3.5);
    assert_close(hidden[3], 4.0);
}

#[test]
fn token_embedding_reads_deepseek_bf16_row() {
    let block = make_single_tensor_zcblk01_with_format(
        b"embed.weight",
        TensorRole::Embed,
        &[2, 4],
        &bf16_rows(&[&[1.0, -2.0, 3.5, 4.0], &[0.25, 0.5, -0.75, 1.25]]),
        11,
        QUANT_DEEPSEEK_BF16_AUX,
        1.0,
        0.0,
    );
    let mut hidden = [0.0f32; 4];

    let found = token_embedding_from_block(&block, 1, &mut hidden).unwrap();

    assert!(found);
    assert_close(hidden[0], 0.25);
    assert_close(hidden[1], 0.5);
    assert_close(hidden[2], -0.75);
    assert_close(hidden[3], 1.25);
}

#[test]
fn token_embedding_skips_rank1_embed_metadata() {
    let block = make_two_tensor_zcblk01(
        (
            b"model.embed_tokens.bias_like_metadata",
            TensorRole::Embed,
            &[2],
            &[0x10],
            1.0,
            0.0,
        ),
        (
            b"model.embed_tokens.weight",
            TensorRole::Embed,
            &[2, 4],
            &pack_i4_rows(&[&[1, 2, 3, 4], &[5, 6, 7, 8]]),
            0.5,
            0.0,
        ),
    );
    let mut hidden = [0.0f32; 4];

    let found = token_embedding_from_block(&block, 1, &mut hidden).unwrap();

    assert!(found);
    assert_close(hidden[0], 2.5);
    assert_close(hidden[3], 4.0);
}

#[test]
fn token_embedding_out_of_vocab_falls_back_cleanly() {
    let block = make_single_tensor_zcblk01(
        b"model.embed_tokens.weight",
        TensorRole::Embed,
        &[2, 4],
        &pack_i4_rows(&[&[1, 2, 3, 4], &[5, 6, 7, 8]]),
        0.5,
        0.0,
    );
    let mut hidden = [9.0f32; 4];

    let found = token_embedding_from_block(&block, 154826, &mut hidden).unwrap();

    assert!(!found);
    assert_close(hidden[0], 9.0);
    assert_close(hidden[3], 9.0);
}

#[test]
fn token_embedding_reads_global_row_shard() {
    let block = make_single_tensor_zcblk01(
        b"model.embed_tokens.weight.rows_154824_154826",
        TensorRole::Embed,
        &[2, 2],
        &pack_i4_rows(&[&[1, 2], &[3, 4]]),
        1.0,
        0.0,
    );
    let mut hidden = [0.0f32; 2];

    assert!(!token_embedding_from_block(&block, 154823, &mut hidden).unwrap());
    assert!(token_embedding_from_block(&block, 154825, &mut hidden).unwrap());
    assert_close(hidden[0], 3.0);
    assert_close(hidden[1], 4.0);
}

fn mtp_test_config(hidden: usize, hc: usize) -> ComputeConfig {
    let mut config = ComputeConfig::deepseek_v4_flash(no_features());
    config.hidden_size = hidden;
    config.hc_mult = hc;
    config
}

fn synth<'a>(
    name: &'a str,
    role_code: u32,
    shape: &'a [u64],
    data: &'a [u8],
    dtype: u16,
    quant: u16,
) -> SyntheticTensor<'a> {
    SyntheticTensor {
        name,
        role_code,
        shape,
        data,
        dtype_original: dtype,
        quant_format: quant,
        scale_bits: 1.0f32.to_bits(),
        zero_point_bits: 0.0f32.to_bits(),
    }
}

#[test]
fn mtp_synthetic_role_codes_follow_main_layer_conventions() {
    let cases: &[(&str, u16)] = &[
        ("mtp.0.attn.wq_a.weight", TensorRole::QProj.code()),
        ("mtp.0.attn.wq_b.weight", TensorRole::QProj.code()),
        ("mtp.0.attn.wkv.weight", TensorRole::KvProj.code()),
        ("mtp.0.attn.wo_a.weight", TensorRole::OProj.code()),
        ("mtp.0.attn.wo_b.weight", TensorRole::OProj.code()),
        ("mtp.0.attn.wq_a.scale", 0),
        ("mtp.0.attn_norm.weight", TensorRole::Norm.code()),
        ("mtp.0.ffn_norm.weight", TensorRole::Norm.code()),
        ("mtp.0.attn.q_norm.weight", TensorRole::Norm.code()),
        ("mtp.0.attn.kv_norm.weight", TensorRole::Norm.code()),
        ("mtp.0.enorm.weight", TensorRole::Norm.code()),
        ("mtp.0.hnorm.weight", TensorRole::Norm.code()),
        ("mtp.0.norm.weight", TensorRole::Norm.code()),
        ("mtp.0.ffn.gate.weight", TensorRole::Router.code()),
        ("mtp.0.ffn.gate.bias", TensorRole::Router.code()),
        ("mtp.0.ffn.shared_experts.w1.weight", TensorRole::SharedExpert.code()),
        ("mtp.0.ffn.shared_experts.w2.scale", TensorRole::SharedExpert.code()),
        ("mtp.0.hc_attn_fn", 0),
        ("mtp.0.hc_head_scale", 0),
        ("mtp.0.attn.attn_sink", 0),
        ("mtp.0.e_proj.weight", 0),
        ("mtp.0.h_proj.weight", 0),
    ];
    for (name, expected) in cases {
        assert_eq!(mtp_synthetic_role_code(name, 0), *expected, "role for {name}");
    }
}

#[test]
fn mtp_prepare_draft_hidden_matches_reference_math() {
    let hidden = 4usize;
    let identity = bf16_rows(&[
        &[1.0, 0.0, 0.0, 0.0],
        &[0.0, 1.0, 0.0, 0.0],
        &[0.0, 0.0, 1.0, 0.0],
        &[0.0, 0.0, 0.0, 1.0],
    ]);
    let enorm = bf16_rows(&[&[1.0, 1.0, 1.0, 1.0]]);
    let hnorm = bf16_rows(&[&[2.0, 2.0, 2.0, 2.0]]);
    let w_shape: [u64; 2] = [4, 4];
    let n_shape: [u64; 1] = [4];
    let tensors = [
        synth("mtp.0.enorm.weight", 10, &n_shape, &enorm, 11, QUANT_DEEPSEEK_BF16_AUX),
        synth("mtp.0.hnorm.weight", 10, &n_shape, &hnorm, 11, QUANT_DEEPSEEK_BF16_AUX),
        synth("mtp.0.e_proj.weight", 0, &w_shape, &identity, 11, QUANT_DEEPSEEK_BF16_AUX),
        synth("mtp.0.h_proj.weight", 0, &w_shape, &identity, 11, QUANT_DEEPSEEK_BF16_AUX),
    ];
    let block = build_synthetic_quant_block(&tensors);
    let config = mtp_test_config(hidden, 2);

    let embed = [1.0f32, 2.0, 3.0, 4.0];
    let main_hidden = [1.0f32, 0.0, 0.0, 0.0, 0.0, 2.0, 0.0, 0.0];
    let mut out = [0.0f32; 8];
    mtp_prepare_draft_hidden(&block, &embed, &main_hidden, &mut out, 64, &config).unwrap();

    let rms = |values: &[f32]| {
        let mean = values.iter().map(|v| v * v).sum::<f32>() / values.len() as f32;
        1.0 / (mean + 1.0e-6).sqrt()
    };
    let inv_e = rms(&embed);
    let e_out: Vec<f32> = embed.iter().map(|v| v * inv_e).collect();
    for copy in 0..2 {
        let src = &main_hidden[copy * hidden..(copy + 1) * hidden];
        let inv_h = rms(src);
        for d in 0..hidden {
            let expected = e_out[d] + src[d] * inv_h * 2.0;
            let actual = out[copy * hidden + d];
            assert!(
                (actual - expected).abs() < 2.0e-2,
                "copy={copy} d={d} actual={actual} expected={expected}"
            );
        }
    }
}

#[test]
fn mtp_head_pool_and_norm_pools_with_block_params() {
    let hidden = 2usize;
    let hc = 2usize;
    let fn_rows = vec![0u8; hc * hc * hidden * 4];
    let scale_raw = 1.0f32.to_le_bytes().to_vec();
    let base_raw: Vec<u8> = [0.0f32, 1.0].iter().flat_map(|v| v.to_le_bytes()).collect();
    let norm = bf16_rows(&[&[1.0, 1.0]]);
    let fn_shape: [u64; 2] = [2, 4];
    let one_shape: [u64; 1] = [1];
    let base_shape: [u64; 1] = [2];
    let norm_shape: [u64; 1] = [2];
    let tensors = [
        synth("mtp.0.hc_head_fn", 0, &fn_shape, &fn_rows, 12, QUANT_DEEPSEEK_F32_AUX),
        synth("mtp.0.hc_head_scale", 0, &one_shape, &scale_raw, 12, QUANT_DEEPSEEK_F32_AUX),
        synth("mtp.0.hc_head_base", 0, &base_shape, &base_raw, 12, QUANT_DEEPSEEK_F32_AUX),
        synth("mtp.0.norm.weight", 10, &norm_shape, &norm, 11, QUANT_DEEPSEEK_BF16_AUX),
    ];
    let block = build_synthetic_quant_block(&tensors);
    let config = mtp_test_config(hidden, hc);

    let hidden_hc = [1.0f32, 2.0, 3.0, 4.0];
    let mut pooled = [0.0f32; 2];
    mtp_head_pool_and_norm(&block, "mtp.0.norm.weight", &hidden_hc, &mut pooled, &config)
        .unwrap();

    let eps = f32::from_bits(config.hc_eps_bits);
    let sigmoid = |x: f32| 1.0 / (1.0 + (-x).exp());
    let w0 = sigmoid(0.0) + eps;
    let w1 = sigmoid(1.0) + eps;
    let raw = [
        w0 * hidden_hc[0] + w1 * hidden_hc[2],
        w0 * hidden_hc[1] + w1 * hidden_hc[3],
    ];
    let mean = (raw[0] * raw[0] + raw[1] * raw[1]) / 2.0;
    let inv_rms = 1.0 / (mean + 1.0e-6).sqrt();
    for d in 0..2 {
        let expected = raw[d] * inv_rms;
        assert!(
            (pooled[d] - expected).abs() < 1.0e-4,
            "d={d} actual={} expected={expected}",
            pooled[d]
        );
    }
}

fn make_compressor_test_block() -> Vec<u8> {
    let mut wkv_rows: Vec<Vec<f32>> = Vec::new();
    let mut wgate_rows: Vec<Vec<f32>> = Vec::new();
    for row in 0..8 {
        let r = row as f32;
        wkv_rows.push(vec![0.5, -0.25, r * 0.125, 1.0]);
        wgate_rows.push(vec![-0.5, r * 0.0625, 0.25, -1.0]);
    }
    let wkv: Vec<&[f32]> = wkv_rows.iter().map(|row| row.as_slice()).collect();
    let wgate: Vec<&[f32]> = wgate_rows.iter().map(|row| row.as_slice()).collect();
    let wkv_data = bf16_rows(&wkv);
    let wgate_data = bf16_rows(&wgate);
    let ape: Vec<u8> =
        (0..32u32).flat_map(|index| (0.03125f32 * index as f32 - 0.5).to_le_bytes()).collect();
    let norm = bf16_rows(&[&[1.0, 0.5, 2.0, 1.0]]);
    let w_shape: [u64; 2] = [8, 4];
    let ape_shape: [u64; 1] = [32];
    let norm_shape: [u64; 1] = [4];
    let tensors = [
        synth(
            "layers.40.attn.compressor.wkv.weight",
            0,
            &w_shape,
            &wkv_data,
            11,
            QUANT_DEEPSEEK_BF16_AUX,
        ),
        synth(
            "layers.40.attn.compressor.wgate.weight",
            0,
            &w_shape,
            &wgate_data,
            11,
            QUANT_DEEPSEEK_BF16_AUX,
        ),
        synth("layers.40.attn.compressor.ape", 0, &ape_shape, &ape, 12, QUANT_DEEPSEEK_F32_AUX),
        synth(
            "layers.40.attn.compressor.norm.weight",
            10,
            &norm_shape,
            &norm,
            11,
            QUANT_DEEPSEEK_BF16_AUX,
        ),
    ];
    build_synthetic_quant_block(&tensors)
}

fn compressor_input(pos: usize) -> Vec<f32> {
    vec![0.5 * pos as f32 + 0.25, -0.5, 0.125 * pos as f32, 0.0625]
}

fn feed_test_position(
    states: &mut CompressorStates<f32>,
    layout: &QuantBlockLayout<'_>,
    pos: usize,
) -> Vec<f32> {
    let inv_freqs = rope_inv_freqs(2, 10_000.0, None);
    feed_compressor(states, layout, 40, pos, &compressor_input(pos), &inv_freqs, 4, 2).unwrap()
}

type CompressorCapture =
    (Vec<f32>, Vec<f32>, usize, Option<(Vec<f32>, Vec<f32>)>, Vec<f32>, Option<usize>);

fn compressor_state_capture(states: &CompressorStates<f32>, layer: usize) -> CompressorCapture {
    let state = states.layer(layer).expect("compressor state present");
    (
        state.pending_kv.clone(),
        state.pending_score.clone(),
        state.pending_len,
        state.prev_first_half.clone(),
        state.compressed.clone(),
        state.last_fed_pos,
    )
}

#[test]
fn compressor_speculation_rollback_is_exact_across_flush() {
    let block = make_compressor_test_block();
    let layout = parse_quant_block(&block).unwrap();
    let mut states = CompressorStates::new();

    for pos in 0..3 {
        feed_test_position(&mut states, &layout, pos);
    }
    deepseek_compressor_speculation_begin(&mut states, 3);
    let snapshot_spec = feed_test_position(&mut states, &layout, 3);
    let state_spec = compressor_state_capture(&states, 40);
    deepseek_compressor_speculation_rollback(&mut states, 3);
    let state_rolled = compressor_state_capture(&states, 40);
    assert_eq!(state_rolled.2, 3, "pending_len back to 3");
    assert_eq!(state_rolled.5, Some(2), "last_fed_pos back to 2");
    assert!(state_rolled.4.is_empty(), "compressed truncated");
    let snapshot_replay = feed_test_position(&mut states, &layout, 3);
    let state_replay = compressor_state_capture(&states, 40);
    assert_eq!(snapshot_spec, snapshot_replay);
    assert_eq!(state_spec.0, state_replay.0);
    assert_eq!(state_spec.1, state_replay.1);
    assert_eq!(state_spec.2, state_replay.2);
    assert_eq!(state_spec.3, state_replay.3);
    assert_eq!(state_spec.4, state_replay.4);
    assert_eq!(state_spec.5, state_replay.5);

    deepseek_compressor_speculation_begin(&mut states, 4);
    feed_test_position(&mut states, &layout, 4);
    deepseek_compressor_speculation_commit(&mut states);
    let state_committed = compressor_state_capture(&states, 40);
    deepseek_compressor_speculation_rollback(&mut states, 4);
    let state_after_noop = compressor_state_capture(&states, 40);
    assert_eq!(state_committed.0, state_after_noop.0);
    assert_eq!(state_committed.2, state_after_noop.2);
    assert_eq!(state_committed.4, state_after_noop.4);
    assert_eq!(state_committed.5, state_after_noop.5);
    assert_eq!(state_after_noop.2, 1, "pos 4 kept after commit");
}

#[test]
fn sessions_bring_compressors_back() {
    let block = make_compressor_test_block();
    let layout = parse_quant_block(&block).unwrap();
    let mut states = CompressorStates::new();
    for pos in 0..6 {
        feed_test_position(&mut states, &layout, pos);
    }
    let before = compressor_state_capture(&states, 40);
    assert_eq!(before.4.len(), 4);
    let session = deepseek_compressor_state_export(&states);
    let mut other = CompressorStates::new();
    assert!(other.layer(40).is_none());
    deepseek_compressor_state_import(&mut other, &session);
    assert_eq!(compressor_state_capture(&other, 40), before);
    assert_eq!(
        feed_test_position(&mut states, &layout, 6),
        feed_test_position(&mut other, &layout, 6)
    );
}

#[test]
fn positions_already_fed_change_nothing() {
    let block = make_compressor_test_block();
    let layout = parse_quant_block(&block).unwrap();
    let mut states = CompressorStates::new();
    for pos in 0..5 {
        feed_test_position(&mut states, &layout, pos);
    }
    let before = compressor_state_capture(&states, 40);
    let again = feed_test_position(&mut states, &layout, 3);
    assert_eq!(again.len(), 4);
    assert_eq!(compressor_state_capture(&states, 40), before);
    assert!(feed_test_position(&mut states, &layout, 2).is_empty());
}

#[test]
fn fp4_matvec_fast_path_matches_per_element_reference() {
    let rows = 3usize;
    let cols = 32usize;
    let scale_cols = 4usize;
    let mut state = 0x12345678u32;
    let mut next = || {
        state = state.wrapping_mul(1664525).wrapping_add(1013904223);
        state
    };
    let packed: Vec<u8> = (0..rows * cols / 2).map(|_| (next() >> 24) as u8).collect();
    let scales: Vec<u8> = (0..rows * scale_cols).map(|_| 120 + (next() >> 29) as u8).collect();
    let input: Vec<f32> = (0..cols).map(|_| ((next() >> 16) as f32 / 65536.0) - 0.5).collect();
    let spec = Fp4Matvec {
        packed_weight: &packed,
        ue8m0_scales: &scales,
        rows,
        cols,
        scale_cols,
    };
    assert!(fp4_rows_split_into_groups(spec));
    let mut output = vec![0.0f32; rows];
    fp4_e2m1_ue8m0_matvec_scalar(spec, &input, &mut output).unwrap();
    let group_cols = cols / scale_cols;
    for row in 0..rows {
        let mut acc = 0.0f32;
        for col in 0..cols {
            let byte = packed[row * cols / 2 + col / 2];
            let nibble = if col % 2 == 0 { byte & 0x0f } else { byte >> 4 };
            let scale = scale_value(scales[row * scale_cols + col / group_cols]);
            acc += f32::from_bits(decode_fp4_e2m1(nibble)) * scale * input[col];
        }
        assert!(
            (output[row] - acc).abs() <= 1e-4 * acc.abs().max(1.0),
            "row {row}: fast {} vs ref {acc}",
            output[row]
        );
    }
}

#[test]
fn fp4_ue8m0_matvec_uses_low_nibble_first_and_row_scales() {
    let spec = Fp4Matvec {
        packed_weight: &[0x02, 0x00, 0x20, 0x00],
        ue8m0_scales: &[127, 127],
        rows: 2,
        cols: 4,
        scale_cols: 1,
    };
    let input = [2.0, 3.0, 5.0, 7.0];
    let mut output = [0.0; 2];
    fp4_e2m1_ue8m0_matvec_scalar(spec, &input, &mut output).unwrap();
    assert!((output[0] - 2.0).abs() < 1e-6);
    assert!((output[1] - 3.0).abs() < 1e-6);
}

fn small_fp4_expert() -> DeepSeekV4Fp4Expert<'static> {
    DeepSeekV4Fp4Expert {
        w1: Fp4Matvec {
            packed_weight: &[0x02],
            ue8m0_scales: &[127],
            rows: 1,
            cols: 2,
            scale_cols: 1,
        },
        w3: Fp4Matvec {
            packed_weight: &[0x20],
            ue8m0_scales: &[127],
            rows: 1,
            cols: 2,
            scale_cols: 1,
        },
        w2: Fp4Matvec {
            packed_weight: &[0x02, 0x04],
            ue8m0_scales: &[127, 127],
            rows: 2,
            cols: 1,
            scale_cols: 1,
        },
    }
}

#[test]
fn fp4_expert_forward_uses_caller_scratch() {
    let input = [2.0, 3.0];
    let mut output = [0.0; 2];
    let mut scratch = [0.0; 2];
    deepseek_v4_fp4_expert_forward_scalar(small_fp4_expert(), &input, &mut output, &mut scratch)
        .unwrap();
    let mut hidden = [2.0 / (1.0 + (-2.0f32).exp()) * 3.0];
    fp8_act_quant_dequant_in_place(&mut hidden, 64);
    let hidden = hidden[0];
    assert!((output[0] - hidden).abs() < 1e-5);
    assert!((output[1] - 2.0 * hidden).abs() < 1e-5);
}

#[test]
fn fp4_expert_forward_rejects_small_scratch() {
    let mut output = [0.0; 2];
    let mut scratch = [0.0; 1];
    assert_eq!(
        deepseek_v4_fp4_expert_forward_scalar(
            small_fp4_expert(),
            &[2.0, 3.0],
            &mut output,
            &mut scratch
        ),
        Err(DeepSeekV4KernelError::ScratchTooSmall)
    );
}

#[test]
fn sqrtsoftplus_router_selects_topk_and_normalizes() {
    let routes = deepseek_sqrtsoftplus_route(&[0.0, 3.0, 1.0, -2.0], None, 2, 1.5);
    assert_eq!(routes.len(), 2);
    assert_eq!(routes[0].0, 1);
    let total: f32 = routes.iter().map(|(_, weight)| *weight).sum();
    assert!((total - 1.5).abs() < 1e-5);
}

fn push_u16(out: &mut Vec<u8>, value: u16) {
    out.extend_from_slice(&value.to_le_bytes());
}

fn push_u32(out: &mut Vec<u8>, value: u32) {
    out.extend_from_slice(&value.to_le_bytes());
}

fn push_u64(out: &mut Vec<u8>, value: u64) {
    out.extend_from_slice(&value.to_le_bytes());
}

fn push_f32(out: &mut Vec<u8>, value: f32) {
    out.extend_from_slice(&value.to_le_bytes());
}

/// Scalar versions of the products that run on threads elsewhere.
fn fp8_rows_product(
    rows: &Fp8Rows<'_>,
    input: &[f32],
    output: &mut [f32],
) -> Result<(), ComputeError> {
    for row in rows.row_start..rows.row_end {
        let (weights, scales) = rows.row(row);
        let sum = fp8_ue8m0_dot_row(weights, scales, rows.col_group, &input[..rows.cols]);
        if let Some(error) = check_fp8_output(sum.to_bits()) {
            return Err(error);
        }
        output[row - rows.row_start] = sum;
    }
    Ok(())
}

fn bf16_rows_product(
    rows: &Bf16Rows<'_>,
    input: &[f32],
    output: &mut [f32],
) -> Result<(), ComputeError> {
    for row in rows.row_start..rows.row_end {
        output[row - rows.row_start] = dot_bf16_row(rows.row(row), &input[..rows.cols])?;
    }
    Ok(())
}

fn lut(patterns: [u32; 256]) -> [f32; 256] {
    let mut values = [0.0f32; 256];
    for (slot, bits) in values.iter_mut().zip(patterns) {
        *slot = f32::from_bits(bits);
    }
    values
}

fn pack_i4_rows(rows: &[&[u8]]) -> Vec<u8> {
    let mut packed = Vec::new();
    for row in rows {
        let mut index = 0usize;
        while index < row.len() {
            let low = row[index] & 0x0f;
            let high = row.get(index + 1).copied().unwrap_or(0) & 0x0f;
            packed.push(low | (high << 4));
            index += 2;
        }
    }
    packed
}

fn assert_close(actual: f32, expected: f32) {
    let diff = (actual - expected).abs();
    assert!(
        diff < 1.0e-5,
        "actual={actual}, expected={expected}, diff={diff}"
    );
}

fn make_test_zcblk01() -> Vec<u8> {
    make_single_tensor_zcblk01(
        b"expert.up_proj.weight",
        TensorRole::UpProj,
        &[2, 4],
        &[0x21, 0x43, 0x34, 0x12],
        0.5,
        0.0,
    )
}

fn make_single_tensor_zcblk01(
    name: &[u8],
    role: TensorRole,
    shape: &[u64],
    data: &[u8],
    scale: f32,
    zero_point: f32,
) -> Vec<u8> {
    make_single_tensor_zcblk01_with_format(name, role, shape, data, 12, 4, scale, zero_point)
}

fn make_single_tensor_zcblk01_with_format(
    name: &[u8],
    role: TensorRole,
    shape: &[u64],
    data: &[u8],
    dtype_original: u16,
    quant_format: u16,
    scale: f32,
    zero_point: f32,
) -> Vec<u8> {
    let name_offset = 0u64;
    let names_offset = QUANT_BLOCK_HEADER_SIZE + QUANT_TENSOR_RECORD_SIZE;
    let data_offset = names_offset + 2 + name.len();
    let shape_offset = data_offset + data.len();

    let mut block = Vec::new();
    block.extend_from_slice(&QUANT_BLOCK_MAGIC);
    push_u32(&mut block, QUANT_BLOCK_VERSION);
    push_u32(&mut block, 1);
    push_u32(&mut block, quant_format as u32);
    push_u32(&mut block, 0);
    push_u64(&mut block, QUANT_BLOCK_HEADER_SIZE as u64);
    push_u64(&mut block, names_offset as u64);

    push_u16(&mut block, dtype_original);
    push_u16(&mut block, quant_format);
    push_u32(&mut block, shape.len() as u32);
    push_u32(&mut block, role.code() as u32);
    push_u64(&mut block, name_offset);
    push_u64(&mut block, shape_offset as u64);
    push_u64(&mut block, data_offset as u64);
    push_u64(&mut block, data.len() as u64);
    push_f32(&mut block, scale);
    push_f32(&mut block, zero_point);

    push_u16(&mut block, name.len() as u16);
    block.extend_from_slice(name);
    block.extend_from_slice(data);
    push_u32(&mut block, shape.len() as u32);
    for dim in shape {
        push_u64(&mut block, *dim);
    }

    block
}

fn make_deepseek_fp4_test_expert_zcblk() -> Vec<u8> {
    let w_shape = [2u64, 1];
    let w2_shape = [2u64, 1];
    let s_shape = [2u64, 1];
    let s2_shape = [2u64, 1];
    let w1_weight = [0x02u8, 0x00u8];
    let w1_scale = [127u8, 127u8];
    let w3_weight = [0x20u8, 0x00u8];
    let w3_scale = [127u8, 127u8];
    let w2_weight = [0x02u8, 0x04u8];
    let w2_scale = [127u8, 127u8];
    let tensors = [
        (
            &b"model.layers.0.mlp.experts.0.w1.weight"[..],
            TensorRole::UpProj,
            &w_shape[..],
            &w1_weight[..],
            12,
            QUANT_DEEPSEEK_FP4_E2M1_PACKED,
            1.0,
            0.0,
        ),
        (
            &b"model.layers.0.mlp.experts.0.w1.scale"[..],
            TensorRole::UpProj,
            &s_shape[..],
            &w1_scale[..],
            1,
            QUANT_DEEPSEEK_UE8M0_SCALE,
            1.0,
            0.0,
        ),
        (
            &b"model.layers.0.mlp.experts.0.w3.weight"[..],
            TensorRole::GateProj,
            &w_shape[..],
            &w3_weight[..],
            12,
            QUANT_DEEPSEEK_FP4_E2M1_PACKED,
            1.0,
            0.0,
        ),
        (
            &b"model.layers.0.mlp.experts.0.w3.scale"[..],
            TensorRole::GateProj,
            &s_shape[..],
            &w3_scale[..],
            1,
            QUANT_DEEPSEEK_UE8M0_SCALE,
            1.0,
            0.0,
        ),
        (
            &b"model.layers.0.mlp.experts.0.w2.weight"[..],
            TensorRole::DownProj,
            &w2_shape[..],
            &w2_weight[..],
            12,
            QUANT_DEEPSEEK_FP4_E2M1_PACKED,
            1.0,
            0.0,
        ),
        (
            &b"model.layers.0.mlp.experts.0.w2.scale"[..],
            TensorRole::DownProj,
            &s2_shape[..],
            &w2_scale[..],
            1,
            QUANT_DEEPSEEK_UE8M0_SCALE,
            1.0,
            0.0,
        ),
    ];
    make_multi_tensor_zcblk01_with_formats(&tensors)
}

fn bf16_rows(rows: &[&[f32]]) -> Vec<u8> {
    let mut out = Vec::new();
    for row in rows {
        for value in *row {
            let raw = (value.to_bits() >> 16) as u16;
            out.extend_from_slice(&raw.to_le_bytes());
        }
    }
    out
}

type TestTensor<'a> = (&'a [u8], TensorRole, &'a [u64], &'a [u8], f32, f32);
type TestTensorWithFormat<'a> = (
    &'a [u8],
    TensorRole,
    &'a [u64],
    &'a [u8],
    u16,
    u16,
    f32,
    f32,
);

fn make_two_tensor_zcblk01(first: TestTensor<'_>, second: TestTensor<'_>) -> Vec<u8> {
    let tensors = [first, second];
    make_multi_tensor_zcblk01(&tensors)
}

fn make_three_tensor_zcblk01(
    first: TestTensor<'_>,
    second: TestTensor<'_>,
    third: TestTensor<'_>,
) -> Vec<u8> {
    let tensors = [first, second, third];
    make_multi_tensor_zcblk01(&tensors)
}

fn make_multi_tensor_zcblk01(tensors: &[TestTensor<'_>]) -> Vec<u8> {
    let formatted = tensors
        .iter()
        .map(|(name, role, shape, data, scale, zero_point)| {
            (
                *name,
                *role,
                *shape,
                *data,
                12,
                4,
                *scale,
                *zero_point,
            )
        })
        .collect::<Vec<_>>();
    make_multi_tensor_zcblk01_with_formats(&formatted)
}

fn make_multi_tensor_zcblk01_with_formats(tensors: &[TestTensorWithFormat<'_>]) -> Vec<u8> {
    let names_offset = QUANT_BLOCK_HEADER_SIZE + tensors.len() * QUANT_TENSOR_RECORD_SIZE;
    let mut names = Vec::new();
    let mut name_offsets = Vec::new();
    for (name, _, _, _, _, _, _, _) in tensors {
        name_offsets.push(names.len() as u64);
        push_u16(&mut names, name.len() as u16);
        names.extend_from_slice(name);
    }
    let mut cursor = names_offset + names.len();
    let mut data_offsets = Vec::new();
    let mut shape_offsets = Vec::new();
    for (_, _, shape, data, _, _, _, _) in tensors {
        data_offsets.push(cursor as u64);
        cursor += data.len();
        shape_offsets.push(cursor as u64);
        cursor += 4 + shape.len() * 8;
    }

    let mut block = Vec::new();
    block.extend_from_slice(&QUANT_BLOCK_MAGIC);
    push_u32(&mut block, QUANT_BLOCK_VERSION);
    push_u32(&mut block, tensors.len() as u32);
    push_u32(&mut block, 4);
    push_u32(&mut block, 0);
    push_u64(&mut block, QUANT_BLOCK_HEADER_SIZE as u64);
    push_u64(&mut block, names_offset as u64);

    for (
        index,
        (name, role, shape, data, dtype_original, quant_format, scale, zero_point),
    ) in tensors.iter().enumerate()
    {
        let _ = name;
        push_u16(&mut block, *dtype_original);
        push_u16(&mut block, *quant_format);
        push_u32(&mut block, shape.len() as u32);
        push_u32(&mut block, role.code() as u32);
        push_u64(&mut block, name_offsets[index]);
        push_u64(&mut block, shape_offsets[index]);
        push_u64(&mut block, data_offsets[index]);
        push_u64(&mut block, data.len() as u64);
        push_f32(&mut block, *scale);
        push_f32(&mut block, *zero_point);
    }
    block.extend_from_slice(&names);
    for (_, _, shape, data, _, _, _, _) in tensors {
        block.extend_from_slice(data);
        push_u32(&mut block, shape.len() as u32);
        for dim in *shape {
            push_u64(&mut block, *dim);
        }
    }
    block
}

fn bf16_at(row: &[u8], index: usize) -> f32 {
    let raw = u16::from_le_bytes([row[2 * index], row[2 * index + 1]]);
    f32::from_bits((raw as u32) << 16)
}

fn dot_bf16_row(row: &[u8], input: &[f32]) -> Result<f32, ComputeError> {
    if row.len() < input.len() * 2 {
        return Err(ComputeError::InvalidShape("BF16 row too small"));
    }
    let mut sums = [0.0f32; 4];
    let quads = input.len() / 4;
    for quad in 0..quads {
        for lane in 0..4 {
            let index = quad * 4 + lane;
            sums[lane] += bf16_at(row, index) * input[index];
        }
    }
    for index in quads * 4..input.len() {
        sums[0] += bf16_at(row, index) * input[index];
    }
    Ok((sums[0] + sums[1]) + (sums[2] + sums[3]))
}

fn fp8_ue8m0_dot_row(weights: &[u8], scales: &[u8], col_group: usize, input: &[f32]) -> f32 {
    let values = lut(fp8_e4m3_base_lut());
    let scale_values = lut(ue8m0_scale_lut());
    let mut acc = 0.0f32;
    for (group, &scale) in scales.iter().enumerate() {
        let start = group * col_group;
        let bytes = &weights[start..start + col_group];
        let cols = &input[start..start + col_group];
        let mut sums = [0.0f32; 4];
        let quads = col_group / 4;
        for quad in 0..quads {
            for lane in 0..4 {
                let index = quad * 4 + lane;
                sums[lane] += values[bytes[index] as usize] * cols[index];
            }
        }
        for index in quads * 4..col_group {
            sums[0] += values[bytes[index] as usize] * cols[index];
        }
        acc += scale_values[scale as usize] * ((sums[0] + sums[1]) + (sums[2] + sums[3]));
    }
    acc
}

fn dot_f32_row(row: &[u8], input: &[f32]) -> Result<f32, ComputeError> {
    if row.len() < input.len() * 4 {
        return Err(ComputeError::InvalidShape("f32 row shorter than input"));
    }
    let mut acc = 0.0f32;
    for (chunk, value) in row.chunks_exact(4).zip(input) {
        acc += f32::from_le_bytes([chunk[0], chunk[1], chunk[2], chunk[3]]) * value;
    }
    Ok(acc)
}

fn i4_value(row: &[u8], index: usize, scale_bits: u32, zero_point_bits: u32) -> f32 {
    let nibble = i4_nibble_at(row, index);
    (nibble as f32 - f32::from_bits(zero_point_bits)) * f32::from_bits(scale_bits)
}

fn int4_rows_product(
    rows: &Int4Rows<'_>,
    input: &[f32],
    output: &mut [f32],
) -> Result<(), ComputeError> {
    if let Some(error) =
        check_int4_args(rows.rows, rows.cols, rows.scale_bits, rows.zero_point_bits)
    {
        return Err(error);
    }
    assert!(rows.is_complete(), "INT4 weights shorter than their shape");
    for row in 0..rows.rows {
        let bytes = rows.row(row);
        let mut acc = 0.0f32;
        for inner in 0..rows.cols {
            acc += input[inner] * i4_value(bytes, inner, rows.scale_bits, rows.zero_point_bits);
        }
        output[row] = acc;
    }
    Ok(())
}

/// A matrix-vector product by its plan.
fn product(plan: &GemvPlan<'_>, input: &[f32], output: &mut [f32]) -> Result<(), ComputeError> {
    match plan {
        GemvPlan::Fp8(rows) => fp8_rows_product(rows, input, output),
        GemvPlan::Bf16(rows) => bf16_rows_product(rows, input, output),
        GemvPlan::Int4(rows) => int4_rows_product(rows, input, output),
    }
}

fn rms_norm_in_place(values: &mut [f32]) {
    if values.is_empty() {
        return;
    }
    let mean_square = values.iter().map(|value| value * value).sum::<f32>() / values.len() as f32;
    let inv_rms = 1.0 / (mean_square + 1.0e-6).sqrt();
    for value in values {
        *value *= inv_rms;
    }
}

/// A norm with weights by its plan, in place.
fn weighted_rms_norm(plan: &NormPlan<'_>, values: &mut [f32]) {
    let mean_square = values.iter().map(|value| value * value).sum::<f32>() / values.len() as f32;
    let inv_rms = 1.0 / (mean_square + 1.0e-6).sqrt();
    for (index, value) in values.iter_mut().enumerate() {
        let weight = match plan {
            NormPlan::Nothing => continue,
            NormPlan::Bf16(data) => bf16_at(data, index),
            NormPlan::Int4 { data, scale_bits, zero_point_bits } => {
                i4_value(data, index, *scale_bits, *zero_point_bits)
            }
        };
        *value = *value * inv_rms * weight;
    }
}

/// A norm with weights where there is a plan, the plain one otherwise.
fn norm_or_plain(plan: &Option<NormPlan<'_>>, values: &mut [f32]) {
    match plan {
        Some(plan) => weighted_rms_norm(plan, values),
        None => rms_norm_in_place(values),
    }
}

fn silu(value: f32) -> f32 {
    value / (1.0 + (-value).exp())
}

fn sigmoid(value: f32) -> f32 {
    1.0 / (1.0 + (-value).exp())
}

/// Rounds to FP8 and back, in blocks with a power-of-two scale each.
fn fp8_act_quant_dequant_in_place(values: &mut [f32], block_size: usize) {
    if block_size == 0 || values.is_empty() {
        return;
    }
    let table = fp8_e4m3_sorted_lut();
    for block in values.chunks_mut(block_size) {
        let amax = block.iter().fold(0.0f32, |acc, value| acc.max(value.abs())).max(1.0e-4);
        let scale = (amax / 448.0).log2().ceil().exp2();
        for value in block.iter_mut() {
            let scaled = (*value / scale).clamp(-448.0, 448.0);
            let (lower, upper) = lut_neighbours(&table, scaled.to_bits());
            let (lower, upper) = (f32::from_bits(lower), f32::from_bits(upper));
            let nearest =
                if (upper - scaled).abs() < (lower - scaled).abs() { upper } else { lower };
            *value = nearest * scale;
        }
    }
}

fn rope_inv_freqs(rope_dim: usize, theta: f32, yarn: Option<YarnRope>) -> Vec<f32> {
    let pairs = rope_dim / 2;
    let mut freqs: Vec<f32> =
        (0..pairs).map(|pair| theta.powf(-((2 * pair) as f32) / rope_dim as f32)).collect();
    let Some(yarn) = yarn else {
        return freqs;
    };
    if yarn.original_seq_len == 0 {
        return freqs;
    }
    let factor = f32::from_bits(yarn.factor_bits);
    let dim = rope_dim as f32;
    let base_ln = theta.ln();
    let correction = |rotations: f32| -> f32 {
        dim * ((yarn.original_seq_len as f32) / (rotations * 2.0 * std::f32::consts::PI)).ln()
            / (2.0 * base_ln)
    };
    let low = correction(f32::from_bits(yarn.beta_fast_bits)).floor().max(0.0);
    let mut high = correction(f32::from_bits(yarn.beta_slow_bits)).ceil().min(dim - 1.0);
    if (low - high).abs() < f32::EPSILON {
        high = low + 0.001;
    }
    for (pair, freq) in freqs.iter_mut().enumerate() {
        let ramp = (((pair as f32) - low) / (high - low)).clamp(0.0, 1.0);
        let smooth = 1.0 - ramp;
        *freq = *freq / factor * (1.0 - smooth) + *freq * smooth;
    }
    freqs
}

fn apply_rope_interleaved_with_freqs(
    values: &mut [f32],
    position: usize,
    inv_freqs: &[f32],
    inverse: bool,
) -> Result<(), ComputeError> {
    if let Some(error) = check_rope_freqs(values.len(), inv_freqs.len()) {
        return Err(error);
    }
    for (pair, inv_freq) in inv_freqs.iter().enumerate() {
        let (mut sin, cos) = (position as f32 * inv_freq).sin_cos();
        if inverse {
            sin = -sin;
        }
        let (even, odd) = (values[2 * pair], values[2 * pair + 1]);
        values[2 * pair] = even * cos - odd * sin;
        values[2 * pair + 1] = even * sin + odd * cos;
    }
    Ok(())
}

fn apply_rope_interleaved_in_place(
    values: &mut [f32],
    position: usize,
    rope_dim: usize,
    theta: f32,
) -> Result<(), ComputeError> {
    if let Some(error) = check_rope(values.len(), rope_dim, theta.to_bits()) {
        return Err(error);
    }
    apply_rope_interleaved_with_freqs(
        values,
        position,
        &rope_inv_freqs(rope_dim, theta, None),
        false,
    )
}

fn apply_rope_interleaved_inverse_in_place(
    values: &mut [f32],
    position: usize,
    rope_dim: usize,
    theta: f32,
) -> Result<(), ComputeError> {
    if let Some(error) = check_rope(values.len(), rope_dim, theta.to_bits()) {
        return Err(error);
    }
    apply_rope_interleaved_with_freqs(
        values,
        position,
        &rope_inv_freqs(rope_dim, theta, None),
        true,
    )
}

fn apply_rope_to_heads_interleaved(
    values: &mut [f32],
    num_heads: usize,
    head_dim: usize,
    rope_dim: usize,
    position: usize,
    theta: f32,
) -> Result<(), ComputeError> {
    apply_rope_to_heads_interleaved_at(values, num_heads, head_dim, 0, rope_dim, position, theta)
}

fn apply_rope_to_heads_interleaved_at(
    values: &mut [f32],
    num_heads: usize,
    head_dim: usize,
    rope_offset: usize,
    rope_dim: usize,
    position: usize,
    theta: f32,
) -> Result<(), ComputeError> {
    let len = values.len();
    if let Some(error) =
        check_rope_heads(len, num_heads, head_dim, rope_offset, rope_dim, theta.to_bits())
    {
        return Err(error);
    }
    for head in 0..num_heads {
        let (start, end) = rope_head_span(len, num_heads, head_dim, rope_offset, rope_dim, head);
        apply_rope_interleaved_in_place(&mut values[start..end], position, rope_dim, theta)?;
    }
    Ok(())
}

fn fp4_e2m1_ue8m0_matvec_scalar(
    spec: Fp4Matvec<'_>,
    input: &[f32],
    output: &mut [f32],
) -> Result<(), DeepSeekV4KernelError> {
    validate_fp4_matvec(spec, input.len(), output.len())?;
    let grouped = fp4_rows_split_into_groups(spec);
    for row in 0..spec.rows {
        let mut acc = 0.0f32;
        if grouped {
            for group in 0..spec.scale_cols {
                let part = fp4_row_group(spec, row, group);
                let bytes =
                    &spec.packed_weight[part.weight_start..part.weight_start + part.weight_bytes];
                let cols = &input[part.col_start..part.col_start + part.col_count];
                let (mut low, mut high) = (0.0f32, 0.0f32);
                for (index, &byte) in bytes.iter().enumerate() {
                    let first = f32::from_bits(FP4_E2M1_BASE_LUT[(byte % 16) as usize]);
                    let second = f32::from_bits(FP4_E2M1_BASE_LUT[(byte / 16) as usize]);
                    low += first * cols[2 * index];
                    high += second * cols[2 * index + 1];
                }
                acc += f32::from_bits(part.scale_bits) * (low + high);
            }
        } else {
            for (col, value) in input[..spec.cols].iter().enumerate() {
                let (weight, scale) = fp4_weight_at(spec, row, col);
                acc += f32::from_bits(weight) * f32::from_bits(scale) * value;
            }
        }
        if !acc.is_finite() {
            return Err(DeepSeekV4KernelError::NonFiniteOutput);
        }
        output[row] = acc;
    }
    Ok(())
}

/// The gated product of an expert, with both sides limited.
fn limited_swiglu(gate: &mut [f32], up: &[f32]) {
    for (gate, up) in gate.iter_mut().zip(up) {
        let upped = up.clamp(-DEEPSEEK_V4_SWIGLU_LIMIT, DEEPSEEK_V4_SWIGLU_LIMIT);
        *gate = silu(gate.min(DEEPSEEK_V4_SWIGLU_LIMIT)) * upped;
    }
}

fn deepseek_v4_fp4_expert_forward_scalar(
    expert: DeepSeekV4Fp4Expert<'_>,
    input: &[f32],
    output: &mut [f32],
    scratch: &mut [f32],
) -> Result<(), DeepSeekV4KernelError> {
    validate_fp4_expert(expert, input.len(), output.len(), scratch.len())?;
    let (gate, rest) = scratch.split_at_mut(expert.w1.rows);
    let up = &mut rest[..expert.w1.rows];
    let mut rounded = input[..expert.w1.cols].to_vec();
    fp8_act_quant_dequant_in_place(&mut rounded, 64);
    fp4_e2m1_ue8m0_matvec_scalar(expert.w1, &rounded, gate)?;
    fp4_e2m1_ue8m0_matvec_scalar(expert.w3, &rounded, up)?;
    limited_swiglu(gate, up);
    fp8_act_quant_dequant_in_place(gate, 64);
    fp4_e2m1_ue8m0_matvec_scalar(expert.w2, gate, output)?;
    if output[..expert.w2.rows].iter().any(|value| !value.is_finite()) {
        return Err(DeepSeekV4KernelError::NonFiniteOutput);
    }
    Ok(())
}

/// The square root of softplus.
fn sqrt_softplus(value: f32) -> f32 {
    let softplus = if value > 20.0 {
        value
    } else if value < -20.0 {
        value.exp()
    } else {
        value.exp().ln_1p()
    };
    softplus.max(0.0).sqrt()
}

fn deepseek_sqrtsoftplus_route(
    logits: &[f32],
    bias: Option<&[f32]>,
    topk: usize,
    route_scale: f32,
) -> Vec<(usize, f32)> {
    let weights: Vec<f32> = logits
        .iter()
        .map(|&logit| {
            let softplus = if logit > 20.0 { logit } else { (1.0 + logit.exp()).ln() };
            softplus.sqrt()
        })
        .collect();
    let select: Vec<u32> = weights
        .iter()
        .enumerate()
        .map(|(index, weight)| (weight + bias.map(|bias| bias[index]).unwrap_or(0.0)).to_bits())
        .collect();
    assert!(select.iter().all(|&bits| !f32::from_bits(bits).is_nan()), "router score is no number");
    let chosen = select_experts_by_score(&select, topk);
    let sum: f32 = chosen.iter().map(|&expert| weights[expert]).sum();
    let divided = route_weights_divided(sum.to_bits());
    chosen
        .into_iter()
        .map(|expert| {
            let weight = if divided {
                weights[expert] / sum * route_scale
            } else {
                route_scale / topk.max(1) as f32
            };
            (expert, weight)
        })
        .collect()
}

/// Makes the weights of the chosen experts sum up to the scale.
fn finalize_route_weights(routes: &mut [ExpertRoute], options: RouteOptions) {
    if !finalizes_weights(options, routes.len()) {
        return;
    }
    let scale = f32::from_bits(options.route_scale_bits);
    let sum: f32 = routes.iter().map(|route| f32::from_bits(route.score_bits)).sum();
    let usable = route_sum_usable(sum.to_bits());
    let uniform = scale / routes.len() as f32;
    for route in routes.iter_mut() {
        let weight =
            if usable { f32::from_bits(route.score_bits) / sum * scale } else { uniform };
        route.score_bits = weight.to_bits();
    }
}

fn normalize_rows(comb: &mut [f32], hc: usize, eps: f32) {
    for row in comb.chunks_mut(hc) {
        let sum: f32 = row.iter().sum();
        for value in row {
            *value /= sum + eps;
        }
    }
}

fn normalize_cols(comb: &mut [f32], hc: usize, eps: f32) {
    for col in 0..hc {
        let sum: f32 = (0..hc).map(|row| comb[row * hc + col]).sum();
        for row in 0..hc {
            comb[row * hc + col] /= sum + eps;
        }
    }
}

fn hc_split_sinkhorn_scalar(
    mixes: &[f32],
    scale: &[f32],
    base: &[f32],
    hc: usize,
    iterations: usize,
    eps: f32,
) -> Result<(Vec<f32>, Vec<f32>, Vec<f32>), ComputeError> {
    if let Some(error) = check_hc_split(mixes.len(), scale.len(), base.len(), hc) {
        return Err(error);
    }
    let mut pre = vec![0.0f32; hc];
    let mut post = vec![0.0f32; hc];
    let mut comb = vec![0.0f32; hc * hc];
    for copy in 0..hc {
        let (first, second, third) = hc_mix_offsets(hc, copy);
        pre[copy] = sigmoid(mixes[first] * scale[0] + base[first]) + eps;
        post[copy] = 2.0 * sigmoid(mixes[second] * scale[1] + base[second]);
        for other in 0..hc {
            comb[copy * hc + other] = mixes[third + other] * scale[2] + base[third + other];
        }
    }
    for row in comb.chunks_mut(hc) {
        let max = row.iter().copied().fold(f32::NEG_INFINITY, f32::max);
        let mut sum = 0.0f32;
        for value in row.iter_mut() {
            *value = (*value - max).exp();
            sum += *value;
        }
        for value in row.iter_mut() {
            *value = *value / sum + eps;
        }
    }
    normalize_cols(&mut comb, hc, eps);
    for _ in 1..iterations {
        normalize_rows(&mut comb, hc, eps);
        normalize_cols(&mut comb, hc, eps);
    }
    Ok((pre, post, comb))
}

fn floats(patterns: &[u32]) -> Vec<f32> {
    patterns.iter().map(|&bits| f32::from_bits(bits)).collect()
}

fn inverse_rms(values: &[f32], eps: f32) -> f32 {
    let mean_square = values.iter().map(|value| value * value).sum::<f32>() / values.len() as f32;
    1.0 / (mean_square + eps).sqrt()
}

fn pooled(weights: &[f32], copies: &[f32], hidden: usize, out: &mut [f32]) {
    for d in 0..hidden {
        out[d] = weights.iter().enumerate().fold(0.0f32, |acc, (copy, weight)| {
            acc + weight * copies[copy * hidden + d]
        });
    }
}

fn hc_pre_into(
    params: &HcParams<'_>,
    x: &[f32],
    y: &mut [f32],
    hc: usize,
    hidden: usize,
    iterations: usize,
    eps: f32,
) -> Result<(Vec<f32>, Vec<f32>), ComputeError> {
    if let Some(error) = check_hc_pre(params, x.len(), y.len(), hc, hidden) {
        return Err(error);
    }
    let x = &x[..params.hc_dim];
    let inv_rms = inverse_rms(x, eps);
    let mut mixes = vec![0.0f32; params.mix_hc];
    for (mix, slot) in mixes.iter_mut().enumerate() {
        *slot = dot_f32_row(params.row(mix), x)? * inv_rms;
    }
    let (pre, post, comb) = hc_split_sinkhorn_scalar(
        &mixes,
        &floats(&params.scale),
        &floats(&params.base),
        hc,
        iterations,
        eps,
    )?;
    pooled(&pre, x, hidden, y);
    Ok((post, comb))
}

fn hc_post_into(
    y: &[f32],
    residual: &[f32],
    post: &[f32],
    comb: &[f32],
    out: &mut [f32],
    hc: usize,
    hidden: usize,
) -> Result<(), ComputeError> {
    if let Some(error) =
        check_hc_post(y.len(), residual.len(), post.len(), comb.len(), out.len(), hc, hidden)
    {
        return Err(error);
    }
    for copy in 0..hc {
        for d in 0..hidden {
            let mut acc = post[copy] * y[d];
            for other in 0..hc {
                acc += comb[copy * hc + other] * residual[other * hidden + d];
            }
            out[copy * hidden + d] = acc;
        }
    }
    Ok(())
}

fn hc_head_pool(
    params: &HcParams<'_>,
    x: &[f32],
    out: &mut [f32],
    hc: usize,
    hidden: usize,
    eps: f32,
) -> Result<(), ComputeError> {
    if let Some(error) = check_hc_head(
        params.fn_data.len(),
        params.base.len(),
        x.len(),
        out.len(),
        hc,
        hidden,
    ) {
        return Err(error);
    }
    let width = hc * hidden;
    let x = &x[..width];
    let inv_rms = inverse_rms(x, eps);
    let scale = f32::from_bits(params.scale[0]);
    let mut weights = vec![0.0f32; hc];
    for (copy, weight) in weights.iter_mut().enumerate() {
        let mix = dot_f32_row(row_of(params.fn_data, hc, width, copy), x)? * inv_rms;
        *weight = sigmoid(mix * scale + f32::from_bits(params.base[copy])) + eps;
    }
    pooled(&weights, x, hidden, out);
    Ok(())
}

fn project(
    layout: &QuantBlockLayout<'_>,
    tensor: QuantTensorLayout<'_>,
    x: &[f32],
    out: &mut [f32],
) -> Result<(), ComputeError> {
    let plan = plan_compressor_projection(layout, tensor, x.len(), out.len())?;
    product(&plan, x, out)
}

/// Feeds a position to the compressor of a layer. Returns the compressed rows
/// that the position sees.
fn feed_compressor(
    states: &mut CompressorStates<f32>,
    layout: &QuantBlockLayout<'_>,
    layer: usize,
    token_pos: usize,
    x: &[f32],
    inv_freqs: &[f32],
    head_dim: usize,
    nope_dim: usize,
) -> Result<Vec<f32>, ComputeError> {
    assert!(head_dim > 0 && token_pos < usize::MAX, "compressor position out of range");
    let tensors = match states.begin_feed(layout, layer, token_pos, head_dim)? {
        FeedStep::NoCompressor | FeedStep::MissingTensors => return Ok(Vec::new()),
        FeedStep::Seen(rows) => return Ok(rows),
        FeedStep::Project(tensors) => tensors,
    };
    let ratio = compress_ratio(layer);
    let width = overlap_factor(ratio) * head_dim;
    let mut kv_row = vec![0.0f32; width];
    let mut score_row = vec![0.0f32; width];
    project(layout, tensors.wkv, x, &mut kv_row)?;
    project(layout, tensors.wgate, x, &mut score_row)?;
    let pos_in_block = states.pos_in_block(layer);
    assert!(
        pos_in_block < ratio && ratio.checked_mul(width).is_some(),
        "compressor block out of range"
    );
    let ape = ape_row(&tensors.ape, ratio, width, pos_in_block)?;
    for (slot, bits) in score_row.iter_mut().zip(ape) {
        *slot += f32::from_bits(bits);
    }
    if states.feed(layer, token_pos, &kv_row, &score_row) {
        assert!(states.can_flush(layer, head_dim), "compressor buffers out of range");
        let block = states.block_count(layer, head_dim);
        let mut row = vec![0.0f32; head_dim];
        for (dim, slot) in row.iter_mut().enumerate() {
            let (scores, values) = states.pool_slots(layer, head_dim, dim);
            let max = scores.iter().cloned().fold(f32::NEG_INFINITY, f32::max);
            let (mut denom, mut acc) = (0.0f32, 0.0f32);
            for (score, value) in scores.iter().zip(&values) {
                let weight = (score - max).exp();
                denom += weight;
                acc += weight * value;
            }
            *slot = if denom > 0.0 { acc / denom } else { 0.0 };
        }
        let norm = plan_weighted_rms_norm(tensors.norm, head_dim, head_dim)?;
        weighted_rms_norm(&norm, &mut row);
        apply_rope_interleaved_with_freqs(&mut row[nope_dim..], block * ratio, inv_freqs, false)?;
        fp8_act_quant_dequant_in_place(&mut row[..nope_dim], 64);
        states.flush(layer, head_dim, &row);
    }
    Ok(states.visible_rows(layer, head_dim, token_pos))
}

fn score(query: &[f32], key: &[f32], scale: f32) -> f32 {
    let mut sum = 0.0f32;
    for (q, k) in query.iter().zip(key) {
        sum += q * k;
    }
    sum * scale
}

/// Attention of all heads of a position over the window and the compressed rows.
fn window_attention(
    kv_cache: &KVCache<'_, f32>,
    layer_index: usize,
    token_pos: usize,
    q: &[f32],
    compressed: &[f32],
    sink: &Option<Vec<u32>>,
    inv_freqs: &[f32],
    heads: usize,
    head_dim: usize,
    nope_dim: usize,
    out: &mut [f32],
) -> Result<(), ComputeError> {
    let scale = (head_dim as f32).powf(-0.5);
    let mut keys = read_window(kv_cache, layer_index, token_pos, head_dim)?;
    keys.extend(compressed.chunks(head_dim));
    out.fill(0.0);
    for head in 0..heads {
        let query = &q[head * head_dim..(head + 1) * head_dim];
        let scores: Vec<f32> = keys.iter().map(|key| score(query, key, scale)).collect();
        let max = scores.iter().copied().fold(f32::NEG_INFINITY, |max, score| {
            if score > max { score } else { max }
        });
        let mut denom = 0.0f32;
        if let Some(sink) = sink {
            denom += (f32::from_bits(sink[head]) - max).exp();
        }
        let part = &mut out[head * head_dim..(head + 1) * head_dim];
        let mut sum = 0.0f32;
        for (key, score) in keys.iter().zip(&scores) {
            let weight = (score - max).exp();
            sum += weight;
            for (slot, value) in part.iter_mut().zip(*key) {
                *slot += weight * value;
            }
        }
        denom += sum;
        if denom > 0.0 {
            for value in part.iter_mut() {
                *value /= denom;
            }
        }
        apply_rope_interleaved_with_freqs(&mut part[nope_dim..], token_pos, inv_freqs, true)?;
    }
    Ok(())
}

fn rotate_heads(
    q: &mut [f32],
    head_dim: usize,
    nope_dim: usize,
    token_pos: usize,
    inv_freqs: &[f32],
) -> Result<(), ComputeError> {
    for head in q.chunks_mut(head_dim) {
        rms_norm_in_place(head);
        apply_rope_interleaved_with_freqs(&mut head[nope_dim..], token_pos, inv_freqs, false)?;
    }
    Ok(())
}

fn finish_latent(
    kv: &mut [f32],
    nope_dim: usize,
    token_pos: usize,
    inv_freqs: &[f32],
) -> Result<(), ComputeError> {
    apply_rope_interleaved_with_freqs(&mut kv[nope_dim..], token_pos, inv_freqs, false)?;
    fp8_act_quant_dequant_in_place(&mut kv[..nope_dim], 64);
    Ok(())
}

/// The latent attention of one position. `hidden_states` is overwritten.
fn compute_deepseek_v4_mla_attention(
    layout: &QuantBlockLayout<'_>,
    layer_index: usize,
    token_pos: usize,
    hidden_states: &mut [f32],
    kv_cache: &mut KVCache<'_, f32>,
    compressors: &mut CompressorStates<f32>,
    scratch: &mut [f32],
    config: &ComputeConfig,
) -> Result<usize, ComputeError> {
    let plan =
        plan_mla_inputs(layout, config, kv_cache, layer_index, token_pos, scratch.len())?;
    let dims = plan.dims;
    let head_dim = dims.head_dim;
    let nope_dim = config.qk_nope_head_dim;
    let hidden = config.hidden_size;
    let (q_lora, rest) = scratch.split_at_mut(plan.buffers.q_at);
    let (q, rest) = rest.split_at_mut(plan.buffers.kv_at - plan.buffers.q_at);
    let (kv, rest) = rest.split_at_mut(plan.buffers.attn_out_at - plan.buffers.kv_at);
    let (attn_out, rest) = rest.split_at_mut(plan.buffers.o_mid_at - plan.buffers.attn_out_at);
    let o_mid = &mut rest[..dims.o_mid_len];
    let mut rounded = hidden_states[..hidden].to_vec();
    fp8_act_quant_dequant_in_place(&mut rounded, 64);
    product(&plan.wq_a.0, &rounded, q_lora)?;
    norm_or_plain(&plan.q_norm, q_lora);
    fp8_act_quant_dequant_in_place(q_lora, 64);
    product(&plan.wq_b.0, q_lora, q)?;
    let inv_freqs = rope_inv_freqs(
        config.qk_rope_head_dim,
        f32::from_bits(plan.rope_theta_bits),
        plan.yarn,
    );
    rotate_heads(q, head_dim, nope_dim, token_pos, &inv_freqs)?;
    product(&plan.wkv.0, &rounded, kv)?;
    norm_or_plain(&plan.kv_norm, kv);
    finish_latent(kv, nope_dim, token_pos, &inv_freqs)?;
    kv_cache.write_latent(layer_index, token_pos, kv)?;
    let compressed = feed_compressor(
        compressors,
        layout,
        layer_index,
        token_pos,
        &hidden_states[..hidden],
        &inv_freqs,
        head_dim,
        nope_dim,
    )?;
    window_attention(
        kv_cache,
        layer_index,
        token_pos,
        q,
        &compressed,
        &plan.sink,
        &inv_freqs,
        config.num_attention_heads,
        head_dim,
        nope_dim,
        attn_out,
    )?;
    fp8_act_quant_dequant_in_place(attn_out, 64);
    let outputs = plan_mla_outputs(layout, config, dims, hidden_states.len())?;
    for (group, rows) in outputs.groups.iter().enumerate() {
        let input = &attn_out[group * dims.group_in..(group + 1) * dims.group_in];
        let lora = config.o_lora_rank;
        product(rows, input, &mut o_mid[group * lora..(group + 1) * lora])?;
    }
    fp8_act_quant_dequant_in_place(o_mid, 64);
    product(&outputs.wo_b.0, o_mid, hidden_states)?;
    Ok(count_mla_values(&plan, &outputs, config).expect("too many weights to count"))
}

fn dot(left: &[f32], right: &[f32]) -> f32 {
    left.iter().zip(right).map(|(left, right)| left * right).sum()
}

/// Attention over all positions so far.
fn causal_attention_from_kv_cache(
    layer_index: usize,
    token_pos: usize,
    query_heads: &[f32],
    kv_cache: &KVCache<'_, f32>,
    out: &mut [f32],
    config: &ComputeConfig,
) -> Result<(), ComputeError> {
    let plan = plan_causal_attention(
        layer_index,
        token_pos,
        query_heads.len(),
        kv_cache,
        out.len(),
        config,
    )?;
    let scale = 1.0f32 / (plan.qk_head_dim as f32).sqrt();
    out[..plan.value_len].fill(0.0);
    for head in 0..plan.heads {
        let spans = plan.head(head);
        let q = &query_heads[spans.query_start..spans.query_start + plan.qk_head_dim];
        assert!(
            spans.kv_start + plan.v_head_dim <= plan.num_kv_heads * plan.kv_head_dim,
            "value head out of range"
        );
        let history = plan.read_head(kv_cache, layer_index, head);
        let mut max = f32::NEG_INFINITY;
        for (key, _) in &history {
            max = max.max(dot(key, q) * scale);
        }
        let part = &mut out[spans.output_start..spans.output_start + plan.v_head_dim];
        let mut sum = 0.0f32;
        for (key, value) in &history {
            let weight = (dot(key, q) * scale - max).exp();
            sum += weight;
            for (slot, value) in part.iter_mut().zip(*value) {
                *slot += weight * value;
            }
        }
        if sum > 0.0 && sum.is_finite() {
            for value in part {
                *value /= sum;
            }
        }
    }
    Ok(())
}

fn run_plain(plan: &PlainProduct<'_>, hidden: &mut [f32]) -> Result<(), ComputeError> {
    let mut out = vec![0.0f32; plan.rows];
    product(&plan.product, &hidden[..plan.cols], &mut out)?;
    hidden[..plan.rows].copy_from_slice(&out);
    Ok(())
}

fn run_gated(plan: &GatedExpert<'_>, hidden: &mut [f32]) -> Result<(), ComputeError> {
    let mut gate = vec![0.0f32; plan.intermediate];
    let mut up = vec![0.0f32; plan.intermediate];
    product(&plan.gate, hidden, &mut gate)?;
    product(&plan.up, hidden, &mut up)?;
    for (gate, up) in gate.iter_mut().zip(&up) {
        *gate = silu(*gate) * up;
    }
    product(&plan.down, &gate, &mut hidden[..plan.down_rows])
}

/// An expert by its plan. `hidden` is overwritten.
fn run_expert(plan: &ExpertPlan<'_>, hidden: &mut [f32]) -> Result<usize, ComputeError> {
    match plan {
        ExpertPlan::Packed(packed) => {
            let input = hidden[..packed.expert.w1.cols].to_vec();
            let mut scratch = vec![0.0f32; 2 * packed.expert.w1.rows];
            deepseek_v4_fp4_expert_forward_scalar(
                packed.expert,
                &input,
                &mut hidden[..packed.expert.w2.rows],
                &mut scratch,
            )
            .map_err(|_| ComputeError::InvalidShape("DeepSeek FP4 expert forward"))?;
        }
        ExpertPlan::Gated(gated) => run_gated(gated, hidden)?,
        ExpertPlan::Plain(plain) => {
            for value in hidden.iter_mut() {
                *value = silu(*value);
            }
            run_plain(plain, hidden)?;
        }
    }
    Ok(plan.values())
}

/// The shared expert by its plan. `hidden` is overwritten.
fn run_shared(plan: &SharedPlan<'_>, hidden: &mut [f32]) -> Result<usize, ComputeError> {
    match plan {
        SharedPlan::Gated(gated) => {
            run_gated(gated, hidden)?;
            Ok(plan.values().expect("too many weights to count"))
        }
        SharedPlan::Fp8(shared) => {
            let mut input = hidden.to_vec();
            let mut gate = vec![0.0f32; shared.intermediate];
            let mut up = vec![0.0f32; shared.intermediate];
            fp8_act_quant_dequant_in_place(&mut input, 64);
            product(&shared.gate, &input, &mut gate)?;
            product(&shared.up, &input, &mut up)?;
            limited_swiglu(&mut gate, &up);
            fp8_act_quant_dequant_in_place(&mut gate, 64);
            product(&shared.down, &gate, &mut hidden[..shared.down_rows])?;
            Ok(plan.values().expect("too many weights to count"))
        }
    }
}

/// The shared expert of a layer alone. `hidden` is overwritten where there is one.
fn compute_shared_expert_from_dense(
    dense: &[u8],
    hidden: &mut [f32],
    scratch_len: usize,
    config: &ComputeConfig,
    stats: &mut LayerComputeStats,
) -> Result<bool, ComputeError> {
    match plan_shared_expert(dense, hidden.len(), scratch_len, config)? {
        Some(plan) => {
            let width = smaller_of(hidden.len(), config.hidden_size);
            stats.dequantized_values += run_shared(&plan, &mut hidden[..width])?;
            Ok(true)
        }
        None => Ok(false),
    }
}

fn router_scores(plan: &RouterPlan<'_>, hidden: &[f32]) -> Result<Vec<f32>, ComputeError> {
    let mut scores = vec![0.0f32; plan.rows];
    product(&plan.product, &hidden[..plan.cols], &mut scores)?;
    Ok(scores)
}

fn bits(values: &[f32]) -> Vec<u32> {
    values.iter().map(|value| value.to_bits()).collect()
}

/// The experts that a layer routes to, with their weights.
fn route_experts_from_dense_block(
    dense: &[u8],
    hidden: &[f32],
    active_experts: usize,
    available_experts: &[u32],
    scratch: &mut [f32],
    options: RouteOptions,
) -> Result<Option<Vec<ExpertRoute>>, ComputeError> {
    let start =
        plan_route_experts(dense, hidden.len(), active_experts, available_experts, scratch.len())?;
    let plan = match start {
        RouteStart::Nothing => return Ok(Some(Vec::new())),
        RouteStart::NoRouter => return Ok(None),
        RouteStart::Scores(plan) => plan,
    };
    let mut scores = router_scores(&plan, hidden)?;
    if options.math == RouterMath::DeepSeekV4SqrtSoftplus {
        for score in &mut scores {
            *score = sqrt_softplus(*score);
        }
    }
    scratch[..plan.rows].copy_from_slice(&scores);
    let all = bits(scratch);
    let mut routes = match plan_route_rule(dense, plan.rows, options)? {
        RouteRule::Hashed(ids) => select_hashed(&ids, available_experts, &all, active_experts),
        RouteRule::Scored(bias) => {
            let choices: Vec<(u32, ExpertRoute)> =
                route_candidates(available_experts, &all, bias.as_deref())
                    .into_iter()
                    .map(|candidate| {
                        let score = f32::from_bits(candidate.score_bits);
                        let selection = match candidate.bias_bits {
                            Some(bias) => score + f32::from_bits(bias),
                            None => score,
                        };
                        let route = ExpertRoute {
                            expert_id: candidate.expert_id,
                            score_bits: candidate.score_bits,
                        };
                        (selection.to_bits(), route)
                    })
                    .collect();
            select_scored(&choices, active_experts)
        }
    };
    finalize_route_weights(&mut routes, options);
    Ok(Some(routes))
}

/// The experts with the highest scores, whether they were read or not.
fn router_top_experts_from_dense_block(
    dense: &[u8],
    hidden: &[f32],
    top_k: usize,
    scratch_len: usize,
) -> Result<Option<Vec<ExpertRoute>>, ComputeError> {
    match plan_router_top_experts(dense, hidden.len(), top_k, scratch_len)? {
        RouteStart::Nothing => Ok(Some(Vec::new())),
        RouteStart::NoRouter => Ok(None),
        RouteStart::Scores(plan) => {
            Ok(Some(select_top_experts(&bits(&router_scores(&plan, hidden)?), top_k)))
        }
    }
}

/// The tokens with the highest scores, from a block that holds the head.
fn lm_head_topk_score_chunked_from_block(
    block: &[u8],
    hidden: &[f32],
    scratch_len: usize,
    top_k: usize,
) -> Result<Vec<(u32, f32)>, ComputeError> {
    let parts = plan_lm_head(block, hidden.len(), scratch_len)?;
    let mut best: Vec<(u32, u32)> = Vec::new();
    for part in &parts {
        let mut input = hidden[..part.cols].to_vec();
        let scores: Vec<f32> = match part.weights {
            HeadWeights::Bf16(_) => {
                let mut scores = Vec::with_capacity(part.rows);
                for row in 0..part.rows {
                    scores.push(dot_bf16_row(part.bf16_row(row).unwrap_or(&[]), &input)?);
                }
                scores
            }
            HeadWeights::Int4 { data, scale_bits, zero_point_bits, norm } => {
                if let Some(norm) = &norm {
                    input = hidden.to_vec();
                    weighted_rms_norm(norm, &mut input);
                }
                let mut scores = vec![0.0f32; part.rows];
                let row_bytes = packed_i4_row_bytes(part.cols);
                let mut row = 0usize;
                while row < part.rows {
                    let rows = part.chunk_rows(row);
                    let chunk = Int4Rows {
                        data: &data[row * row_bytes..],
                        rows,
                        cols: part.cols,
                        scale_bits,
                        zero_point_bits,
                    };
                    int4_rows_product(&chunk, &input, &mut scores[row..row + rows])?;
                    row += rows;
                }
                scores
            }
        };
        for (row, score) in scores.iter().enumerate() {
            push_topk_candidate(&mut best, top_k.max(1), part.token(row), score.to_bits());
        }
    }
    let sorted = finish_lm_head(parts.len(), &best)?;
    Ok(sorted.into_iter().map(|(token, bits)| (token, f32::from_bits(bits))).collect())
}

/// The token with the highest score and its score.
fn lm_head_argmax_score_chunked_from_block(
    block: &[u8],
    hidden: &[f32],
    scratch_len: usize,
) -> Result<Option<(u32, f32)>, ComputeError> {
    let best = lm_head_topk_score_chunked_from_block(block, hidden, scratch_len, 1)?;
    Ok(best.into_iter().next())
}

/// The embedding of a token, if the block has it.
fn token_embedding_from_block(
    block: &[u8],
    token_id: u32,
    out: &mut [f32],
) -> Result<bool, ComputeError> {
    let Some(row) = plan_token_embedding(block, token_id, out.len())? else {
        return Ok(false);
    };
    match row {
        EmbeddingRow::Bf16 { .. } => {
            for (slot, bits) in out.iter_mut().zip(row.bf16_values().unwrap_or_default()) {
                *slot = f32::from_bits(bits);
            }
        }
        EmbeddingRow::Int4 { bytes, cols, scale_bits, zero_point_bits } => {
            for (index, slot) in out[..cols].iter_mut().enumerate() {
                let nibble = i4_nibble_at(bytes, index) as f32;
                *slot =
                    (nibble - f32::from_bits(zero_point_bits)) * f32::from_bits(scale_bits);
            }
        }
    }
    Ok(true)
}

fn normed_product(
    plan: &NormedProduct<'_>,
    input: &[f32],
    out: &mut [f32],
) -> Result<(), ComputeError> {
    let mut work = input.to_vec();
    weighted_rms_norm(&plan.norm, &mut work);
    if plan.rounds_input {
        fp8_act_quant_dequant_in_place(&mut work, 64);
    }
    product(&plan.product, &work, out)
}

/// The input of the draft head: for each copy of the hidden state, its side and
/// that of the embedding.
fn mtp_prepare_draft_hidden(
    dense: &[u8],
    embedding: &[f32],
    main_hidden: &[f32],
    out: &mut [f32],
    scratch_len: usize,
    config: &ComputeConfig,
) -> Result<usize, ComputeError> {
    let plan = plan_mtp_draft(
        dense,
        embedding.len(),
        main_hidden.len(),
        out.len(),
        scratch_len,
        config,
    )?;
    let hidden = config.hidden_size;
    let mut side = vec![0.0f32; hidden];
    normed_product(&plan.embedding, &embedding[..hidden], &mut side)?;
    for copy in 0..plan.copies {
        let span = copy * hidden..(copy + 1) * hidden;
        let target = &mut out[span.clone()];
        normed_product(&plan.hidden, &main_hidden[span], target)?;
        for (slot, value) in target.iter_mut().zip(&side) {
            *slot += value;
        }
    }
    Ok(plan.values().expect("too many weights to count"))
}

/// What the head reads of a draft: the copies pooled and normed.
fn mtp_head_pool_and_norm(
    dense: &[u8],
    final_norm_name: &str,
    hidden_hc: &[f32],
    out: &mut [f32],
    config: &ComputeConfig,
) -> Result<(), ComputeError> {
    let plan = plan_mtp_head(dense, final_norm_name, hidden_hc.len(), out.len(), config)?;
    let hidden = config.hidden_size;
    let eps = f32::from_bits(config.hc_eps_bits);
    hc_head_pool(&plan.params, hidden_hc, &mut out[..hidden], plan.copies, hidden, eps)?;
    weighted_rms_norm(&plan.norm, &mut out[..hidden]);
    Ok(())
}
