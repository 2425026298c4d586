//! What holds of the library as a whole, on concrete values, and the errors that
//! it names.

use zc_infer_core::bytes::{
    bytes_contain, bytes_end_with, bytes_find, bytes_rfind, bytes_start_with, bytes_to_lower,
    load_u16, load_u32, load_u64, parse_decimal, push_decimal, push_u16, push_u32, push_u64,
};
use zc_infer_core::compute::act_quant::{fp8_e4m3_sorted_lut, lut_neighbours};
use zc_infer_core::compute::config::{
    detect_best_kernel, AttentionKind, ComputeConfig, CpuFeatures, CpuKernel, RouteOptions,
    RouterMath,
};
use zc_infer_core::compute::dequant::{dequantize_block_simd, QuantBlockParams};
use zc_infer_core::compute::error::{ComputeError, DiskQuantFormat};
use zc_infer_core::compute::fused_gemv::{check_sgemm, validate_fused_gemv_args, GemvParts};
use zc_infer_core::compute::gemv::{
    check_fp8_output, multi_row_chunks, multi_values, plan_fp8_rows, plan_fp8_rows_multi,
    scatter_rows, GemvPlan,
};
use zc_infer_core::compute::glm_attention::{
    plan_causal_attention, plan_probe_dims, plan_probe_inputs,
};
use zc_infer_core::compute::kv_cache::KVCache;
use zc_infer_core::compute::layer::{plan_layer_start, plan_mlp, LayerStep, MlpPlan};
use zc_infer_core::compute::lm_head::{
    finish_lm_head, lm_head_row_count_from_block, plan_lm_head, sort_tokens,
};
use zc_infer_core::compute::lookup::{
    find_tensor_by_suffix, fp8_scale_for_weight, is_final_norm_name, norm_tensor_by_marker,
    tensor_by_name_suffix,
};
use zc_infer_core::compute::mhc::{
    batch_share, plan_mhc_attention, plan_mhc_batch, plan_mhc_batch_ffn, plan_mhc_ffn,
};
use zc_infer_core::compute::mla::{
    count_mla_batch_values, count_mla_values, plan_mla_batch, plan_mla_batch_outputs,
    plan_mla_dims, plan_mla_inputs, plan_mla_outputs, read_window, sliding_window,
};
use zc_infer_core::compute::moe::{
    moe_output, position_span, route_weights_valid, weight_sum_usable, MoeOutput,
};
use zc_infer_core::compute::norm::{plan_weighted_rms_norm, NormPlan};
use zc_infer_core::compute::quant_block::{
    parse_quant_block, read_u16_le, QuantBlockLayout, TensorRole,
};
use zc_infer_core::compute::rope::{check_rope, check_rope_freqs, check_rope_heads};
use zc_infer_core::compute::routing::{
    plan_route_rule, route_candidates, select_hashed, select_scored, select_top_experts,
    ExpertRoute, RouteRule,
};
use zc_infer_core::compute::synthetic::{build_synthetic_quant_block, SyntheticTensor};
use zc_infer_core::compute::values::{
    f32_tensor_values, hc_params_from_layout, tensor_global_row_range,
};
use zc_infer_core::deepseek_v4::{
    QUANT_DEEPSEEK_BF16_AUX, QUANT_DEEPSEEK_F32_AUX, QUANT_DEEPSEEK_FP8_E4M3,
    QUANT_DEEPSEEK_I64_AUX, QUANT_DEEPSEEK_UE8M0_SCALE,
};
use zc_infer_core::floats::{bits_are_nan, bits_greater, total_above};
use zc_infer_core::order::{
    number_order_key, push_topk_candidate, rank_descending, total_order_key,
};

fn tensor<'a>(
    name: &'a str,
    role: TensorRole,
    shape: &'a [u64],
    data: &'a [u8],
    quant_format: u16,
) -> SyntheticTensor<'a> {
    SyntheticTensor {
        name,
        role_code: role.code() as u32,
        shape,
        data,
        dtype_original: match quant_format {
            QUANT_DEEPSEEK_F32_AUX => 12,
            QUANT_DEEPSEEK_I64_AUX => 9,
            _ => 11,
        },
        quant_format,
        scale_bits: 1.0f32.to_bits(),
        zero_point_bits: 0,
    }
}

fn config() -> ComputeConfig {
    let features = CpuFeatures { avx512f: false, avx2: false, fma: false };
    let mut config = ComputeConfig::deepseek_v4_flash(features);
    config.hidden_size = 4;
    config.intermediate_size = 4;
    config.num_attention_heads = 2;
    config.num_kv_heads = 1;
    config.qk_rope_head_dim = 2;
    config.qk_nope_head_dim = 2;
    config.v_head_dim = 4;
    config.q_lora_rank = 2;
    config.kv_lora_rank = 2;
    config.o_groups = 2;
    config.o_lora_rank = 3;
    config.hc_mult = 2;
    config
}

#[test]
fn role_codes_lead_back_to_their_roles() {
    for code in 0..40u16 {
        let role = TensorRole::from_code(code);
        if role != TensorRole::Unknown {
            assert_eq!(role.code(), code);
        }
        assert_eq!(TensorRole::from_code(role.code()), role);
    }
}

#[test]
fn built_blocks_give_their_tensors_back() {
    let shape: [u64; 2] = [2, 3];
    let other: [u64; 1] = [7];
    let tensors = [
        tensor("first.weight", TensorRole::UpProj, &shape, &[1, 2, 3, 4], 4),
        tensor("second.weight", TensorRole::Norm, &other, &[9], QUANT_DEEPSEEK_BF16_AUX),
    ];
    let block = build_synthetic_quant_block(&tensors);
    let layout = parse_quant_block(&block).unwrap();
    assert_eq!(layout.tensor_count(), 2);
    let first = layout.tensor(0).unwrap();
    assert_eq!(first.name, b"first.weight");
    assert_eq!(first.data, &[1, 2, 3, 4]);
    assert_eq!((first.shape.dim(0).unwrap(), first.shape.dim(1).unwrap()), (2, 3));
    assert_eq!(first.shape.element_count().unwrap(), 6);
    let second = layout.tensor(1).unwrap();
    assert_eq!(second.role(), TensorRole::Norm);
    assert_eq!(second.quant_format, QUANT_DEEPSEEK_BF16_AUX);
    assert!(matches!(
        layout.tensor(2),
        Err(ComputeError::TensorIndexOutOfRange { index: 2, count: 2 })
    ));
    assert!(layout.tensor_by_role(TensorRole::Embed).unwrap().is_none());
    assert_eq!(
        layout.first_tensor_by_roles(&[TensorRole::Norm, TensorRole::UpProj]).unwrap().name,
        b"second.weight"
    );
}

#[test]
fn damaged_blocks_are_named() {
    let shape: [u64; 1] = [1];
    let block =
        build_synthetic_quant_block(&[tensor("t", TensorRole::Norm, &shape, &[1, 2], 4)]);
    let mut magic = block.clone();
    magic[0] = 0;
    assert!(matches!(parse_quant_block(&magic), Err(ComputeError::InvalidQuantBlockMagic(_))));
    let mut version = block.clone();
    version[8] = 9;
    assert!(matches!(
        parse_quant_block(&version),
        Err(ComputeError::UnsupportedQuantBlockVersion(9))
    ));
    assert!(matches!(
        parse_quant_block(&block[..20]),
        Err(ComputeError::TruncatedQuantBlock(_))
    ));
    let cut = &block[..block.len() - 1];
    let layout = parse_quant_block(cut).unwrap();
    assert!(matches!(layout.tensor(0), Err(ComputeError::TruncatedQuantBlock(_))));
    assert_eq!(read_u16_le(&[1, 2], 0, "x").unwrap(), 513);
    assert!(matches!(
        read_u16_le(&[1], 0, "x"),
        Err(ComputeError::TruncatedQuantBlock("x"))
    ));
}

#[test]
fn names_that_are_no_text_match_nothing() {
    let shape: [u64; 1] = [2];
    let mut block = build_synthetic_quant_block(&[tensor(
        "layers.0.attn_norm.weight",
        TensorRole::Norm,
        &shape,
        &[0, 0, 0, 0],
        QUANT_DEEPSEEK_BF16_AUX,
    )]);
    let found = |block: &[u8]| {
        let layout = parse_quant_block(block).unwrap();
        let by_marker = norm_tensor_by_marker(&layout, "input_layernorm").unwrap().is_some();
        let by_suffix = tensor_by_name_suffix(&layout, "attn_norm.weight").unwrap().is_some();
        (by_marker, by_suffix)
    };
    assert_eq!(found(&block), (true, true));
    let at = bytes_find(&block, b"layers.0").unwrap();
    block[at] = 0xff;
    assert_eq!(found(&block), (false, false));
    assert!(is_final_norm_name(b"model.norm.weight"));
    assert!(!is_final_norm_name(b"model.norm.weight\xff"));
}

#[test]
fn caches_give_back_what_was_written() {
    let mut storage = vec![7u32; KVCache::<u32>::required_f32(2, 3, 1, 2).unwrap()];
    let mut cache = KVCache::from_scratch(&mut storage, 2, 3, 1, 2, 0).unwrap();
    assert_eq!(cache.key_slice(1, 2).unwrap(), &[0, 0]);
    cache.append(0, 0, &[1, 2], &[3, 4]).unwrap();
    cache.append(1, 2, &[5, 6], &[7, 8]).unwrap();
    assert_eq!(cache.key_slice(0, 0).unwrap(), &[1, 2]);
    assert_eq!(cache.value_slice(0, 0).unwrap(), &[3, 4]);
    assert_eq!(cache.value_slice(1, 2).unwrap(), &[7, 8]);
    assert_eq!(cache.key_slice(0, 2).unwrap(), &[0, 0]);
    assert_eq!(cache.head_layout(), (1, 2));
    assert_eq!(cache.capacity(), 3);
    assert!(cache.key_slice(2, 0).is_err());
    assert!(cache.check_slot(0, 3).is_some());
    let copy = cache.raw_storage().to_vec();
    cache.append(0, 0, &[9, 9], &[9, 9]).unwrap();
    cache.restore_raw(&copy).unwrap();
    assert_eq!(cache.key_slice(0, 0).unwrap(), &[1, 2]);
    assert!(cache.restore_raw(&copy[1..]).is_err());
    assert!(cache.append(0, 0, &[1], &[1, 2]).is_err());
}

#[test]
fn attention_reaches_back_to_the_first_position() {
    let mut storage = vec![0u32; KVCache::<u32>::required_f32(1, 4, 1, 4).unwrap()];
    let cache = KVCache::from_scratch(&mut storage, 1, 4, 1, 4, 0).unwrap();
    let mut config = config();
    config.num_attention_heads = 1;
    let plan = plan_causal_attention(0, 2, 4, &cache, 4, &config).unwrap();
    assert_eq!(plan.history_len, 3);
    assert_eq!(plan.head(0).query_start, 0);
    assert!(plan_causal_attention(0, 4, 4, &cache, 4, &config).is_err());
    assert_eq!(sliding_window(5), (0, 6));
    assert_eq!(sliding_window(200), (73, 201));
}

#[test]
fn later_positions_do_not_matter() {
    let shape = KVCache::<u32>::required_f32(1, 4, 2, 3).unwrap();
    let (mut one, mut two) = (vec![0u32; shape], vec![0u32; shape]);
    let mut first = KVCache::from_scratch(&mut one, 1, 4, 2, 3, 0).unwrap();
    let mut second = KVCache::from_scratch(&mut two, 1, 4, 2, 3, 0).unwrap();
    for pos in 0..3u32 {
        let key: Vec<u32> = (0..6).map(|index| 10 * pos + index).collect();
        let value: Vec<u32> = (0..6).map(|index| 100 + 10 * pos + index).collect();
        first.append(0, pos as usize, &key, &value).unwrap();
        second.append(0, pos as usize, &key, &value).unwrap();
    }
    second.append(0, 2, &[9; 6], &[8; 6]).unwrap();
    let mut config = config();
    config.num_attention_heads = 2;
    config.num_kv_heads = 2;
    config.qk_nope_head_dim = 1;
    config.qk_rope_head_dim = 1;
    config.v_head_dim = 3;
    let plan = plan_causal_attention(0, 1, 4, &first, 6, &config).unwrap();
    assert_eq!(plan, plan_causal_attention(0, 1, 4, &second, 6, &config).unwrap());
    for head in 0..2 {
        assert_eq!(plan.read_head(&first, 0, head), plan.read_head(&second, 0, head));
    }
    let history = plan.read_head(&first, 0, 1);
    assert_eq!(history.len(), 2);
    assert_eq!(history[1], (&[13u32, 14][..], &[113u32, 114, 115][..]));
    let last = plan_causal_attention(0, 2, 4, &first, 6, &config).unwrap();
    assert_ne!(last.read_head(&first, 0, 0), last.read_head(&second, 0, 0));
}

#[test]
fn positions_see_no_later_keys() {
    let shape = KVCache::<u32>::required_f32(1, 4, 1, 3).unwrap();
    let (mut one, mut two) = (vec![0u32; shape], vec![0u32; shape]);
    let mut single = KVCache::from_scratch(&mut one, 1, 4, 1, 3, 0).unwrap();
    let mut batch = KVCache::from_scratch(&mut two, 1, 4, 1, 3, 0).unwrap();
    let positions = [0usize, 2, 3];
    for pos in positions {
        batch.write_latent(0, pos, &[pos as u32 + 1, 7]).unwrap();
    }
    for pos in positions {
        single.write_latent(0, pos, &[pos as u32 + 1, 7]).unwrap();
        assert_eq!(
            read_window(&single, 0, pos, 2).unwrap(),
            read_window(&batch, 0, pos, 2).unwrap()
        );
    }
    assert_eq!(single.raw_storage(), batch.raw_storage());
    assert_eq!(single.key_slice(0, 2).unwrap(), &[3, 7, 0]);
    assert_eq!((single.layer_count(), single.written_to()), (1, 4));
    assert!(single.write_latent(0, 4, &[1]).is_err());
    assert!(read_window(&single, 1, 0, 2).is_err());
}

fn fp8_block() -> Vec<u8> {
    let one: [u64; 2] = [1, 1];
    let shapes: [[u64; 2]; 5] = [[2, 4], [8, 2], [4, 4], [6, 4], [4, 6]];
    let data: Vec<Vec<u8>> = shapes
        .iter()
        .map(|shape| (0..shape[0] * shape[1]).map(|index| (index * 7 % 120) as u8).collect())
        .collect();
    let scale = [127u8];
    let names = [
        ("layers.0.attn.wq_a.weight", "layers.0.attn.wq_a.scale", TensorRole::QProj),
        ("layers.0.attn.wq_b.weight", "layers.0.attn.wq_b.scale", TensorRole::QProj),
        ("layers.0.attn.wkv.weight", "layers.0.attn.wkv.scale", TensorRole::KvProj),
        ("layers.0.attn.wo_a.weight", "layers.0.attn.wo_a.scale", TensorRole::OProj),
        ("layers.0.attn.wo_b.weight", "layers.0.attn.wo_b.scale", TensorRole::OProj),
    ];
    let mut tensors = Vec::new();
    for (index, (weight, scale_name, role)) in names.iter().enumerate() {
        tensors.push(tensor(weight, *role, &shapes[index], &data[index], QUANT_DEEPSEEK_FP8_E4M3));
        tensors.push(tensor(
            scale_name,
            TensorRole::Unknown,
            &one,
            &scale,
            QUANT_DEEPSEEK_UE8M0_SCALE,
        ));
    }
    build_synthetic_quant_block(&tensors)
}

#[test]
fn batches_read_the_rows_of_single_positions() {
    let block = fp8_block();
    let layout = parse_quant_block(&block).unwrap();
    let config = config();
    let mut storage = vec![0u32; KVCache::<u32>::required_f32(1, 4, 1, 4).unwrap()];
    let cache = KVCache::from_scratch(&mut storage, 1, 4, 1, 4, 0).unwrap();
    let single = plan_mla_inputs(&layout, &config, &cache, 0, 0, 1000).unwrap();
    let batch = plan_mla_batch(&layout, &config, &cache, 0, &[0, 1], 8, false).unwrap().unwrap();
    assert_eq!(single.dims, batch.dims);
    assert_eq!(single.dims.group_in, 4);
    assert_eq!(single.dims.o_mid_len, 6);
    for (plan, rows) in
        [(&single.wq_a, &batch.wq_a), (&single.wq_b, &batch.wq_b), (&single.wkv, &batch.wkv)]
    {
        let GemvPlan::Fp8(alone) = &plan.0 else {
            panic!("no FP8 rows");
        };
        assert_eq!((alone.row_start, alone.row_end), (rows.row_start, rows.row_end));
        for row in alone.row_start..alone.row_end {
            assert_eq!(alone.row(row), rows.row(row));
        }
    }
    let outputs = plan_mla_outputs(&layout, &config, single.dims, 4).unwrap();
    let (groups, last) = plan_mla_batch_outputs(&batch, &config, 2).unwrap();
    assert_eq!((outputs.groups.len(), groups.len()), (2, 2));
    assert_eq!((groups[1].row_start, groups[1].row_end), (3, 6));
    assert_eq!(last.row_end, 4);
    for (plan, rows) in outputs.groups.iter().zip(&groups) {
        let GemvPlan::Fp8(alone) = plan else {
            panic!("no FP8 rows");
        };
        for row in alone.row_start..alone.row_end {
            assert_eq!(alone.row(row), rows.row(row));
        }
    }
    assert_eq!(count_mla_values(&single, &outputs, &config), Some(88));
    assert_eq!(count_mla_batch_values(&batch, &groups, &last, 2), Some(176));
    assert_eq!(batch_share(176, 2), 88);
    assert_eq!(count_mla_batch_values(&batch, &groups, &last, usize::MAX), None);
    assert!(plan_mla_batch(&layout, &config, &cache, 0, &[0, 1], 8, true).unwrap().is_none());
    assert!(matches!(
        plan_mla_inputs(&layout, &config, &cache, 0, 0, 3),
        Err(ComputeError::ScratchTooSmall { actual: 3, .. })
    ));
}

#[test]
fn several_inputs_share_rows() {
    let block = fp8_block();
    let layout = parse_quant_block(&block).unwrap();
    let weight = find_tensor_by_suffix(&layout, "wq_a.weight").unwrap();
    let scale = fp8_scale_for_weight(&layout, weight).unwrap();
    let rows = plan_fp8_rows_multi(weight, scale, 0, 2, &[4, 4], &[2, 2]).unwrap();
    assert_eq!(rows.col_group, 4);
    assert!(plan_fp8_rows_multi(weight, scale, 0, 2, &[4, 3], &[2, 2]).is_err());
    assert!(plan_fp8_rows_multi(weight, scale, 0, 2, &[4, 4], &[2, 1]).is_err());
    assert_eq!(multi_values(2, 4, 2).unwrap(), 16);
    let mut next = 0;
    for (first, count) in multi_row_chunks(50, 4) {
        assert_eq!(first, next);
        next += count;
    }
    assert_eq!(next, 50);
    let part = plan_fp8_rows_multi(weight, scale, 1, 2, &[4, 5], &[1, 3]).unwrap();
    for (input, output) in [(4, 1), (5, 3)] {
        let alone = plan_fp8_rows(weight, scale, 1, 2, input, output).unwrap();
        assert_eq!(alone.row(1), part.row(1));
        assert_eq!((alone.row_start, alone.row_end), (part.row_start, part.row_end));
    }
    assert!(plan_fp8_rows(weight, scale, 0, 2, 3, 2).is_err());
    let mut out = [0u8, 0, 9];
    scatter_rows(&[1, 2, 3, 4], 2, 1, 2, &mut out);
    assert_eq!(out, [2, 4, 9]);
    for value in [f32::INFINITY, f32::NEG_INFINITY, f32::NAN] {
        assert!(matches!(
            check_fp8_output(value.to_bits()),
            Some(ComputeError::InvalidShape("DeepSeek FP8 GEMV non-finite output"))
        ));
    }
    for value in [0.0, -1.5, f32::MAX, f32::MIN_POSITIVE] {
        assert!(check_fp8_output(value.to_bits()).is_none());
    }
    assert!(find_tensor_by_suffix(&layout, "missing").is_err());
}

fn hc_block() -> Vec<u8> {
    let fn_shape: [u64; 2] = [8, 8];
    let three: [u64; 1] = [3];
    let eight: [u64; 1] = [8];
    let norm_shape: [u64; 1] = [4];
    let fn_data: Vec<u8> = (0..64u32).flat_map(|value| (value as f32).to_le_bytes()).collect();
    let scale: Vec<u8> = [1.0f32, 2.0, 3.0].iter().flat_map(|value| value.to_le_bytes()).collect();
    let base: Vec<u8> = (0..8u32).flat_map(|value| (value as f32).to_le_bytes()).collect();
    let norm = [0x80u8, 0x3f, 0x80, 0x3f, 0x80, 0x3f, 0x80, 0x3f];
    let tensors = [
        tensor("layers.0.hc_attn_fn", TensorRole::Unknown, &fn_shape, &fn_data, QUANT_DEEPSEEK_F32_AUX),
        tensor("layers.0.hc_attn_scale", TensorRole::Unknown, &three, &scale, QUANT_DEEPSEEK_F32_AUX),
        tensor("layers.0.hc_attn_base", TensorRole::Unknown, &eight, &base, QUANT_DEEPSEEK_F32_AUX),
        tensor("layers.0.hc_ffn_fn", TensorRole::Unknown, &fn_shape, &fn_data, QUANT_DEEPSEEK_F32_AUX),
        tensor("layers.0.hc_ffn_scale", TensorRole::Unknown, &three, &scale, QUANT_DEEPSEEK_F32_AUX),
        tensor("layers.0.hc_ffn_base", TensorRole::Unknown, &eight, &base, QUANT_DEEPSEEK_F32_AUX),
        tensor("layers.0.attn_norm.weight", TensorRole::Norm, &norm_shape, &norm, QUANT_DEEPSEEK_BF16_AUX),
        tensor("layers.0.ffn_norm.weight", TensorRole::Norm, &norm_shape, &norm, QUANT_DEEPSEEK_BF16_AUX),
    ];
    build_synthetic_quant_block(&tensors)
}

#[test]
fn parameters_of_hyper_connections_are_complete() {
    let block = hc_block();
    let layout = parse_quant_block(&block).unwrap();
    let params = hc_params_from_layout(&layout, "hc_attn").unwrap().unwrap();
    assert_eq!((params.mix_hc, params.hc_dim), (8, 8));
    assert_eq!(params.base[7], 7.0f32.to_bits());
    assert_eq!(params.scale[2], 3.0f32.to_bits());
    assert_eq!(params.row(1)[..4], 8.0f32.to_le_bytes());
    assert!(hc_params_from_layout(&layout, "hc_head").unwrap().is_none());
}

#[test]
fn batches_of_hyper_connections_match_single_positions() {
    let block = hc_block();
    let config = config();
    let single = plan_mhc_attention(&block, 8, 1000, &config).unwrap();
    let batch = plan_mhc_batch(&block, 3, 24, &config).unwrap();
    assert_eq!(single.hc_dim, batch.hc_dim);
    assert_eq!(single.hc_attn.base, batch.hc_attn.base);
    assert_eq!(single.hc_ffn.fn_data, batch.hc_ffn.fn_data);
    let bytes = |plan: &Option<NormPlan<'_>>| match plan {
        Some(NormPlan::Bf16(data)) => data.to_vec(),
        _ => panic!("no norm"),
    };
    assert_eq!(bytes(&single.norm), bytes(&batch.input_norm));
    let alone = plan_mhc_ffn(&block, &single.hc_ffn, &config).unwrap();
    let shared = plan_mhc_batch_ffn(&batch, &config).unwrap();
    assert_eq!(bytes(&alone), bytes(&shared));
    assert_eq!(batch_share(10, 3), 3);
    assert!(plan_mhc_attention(&block, 7, 1000, &config).is_err());
}

#[test]
fn sorted_tokens_do_not_rise() {
    let bits = |value: f32| value.to_bits();
    let sorted = sort_tokens(&[(1, bits(0.5)), (2, bits(2.0)), (3, bits(-1.0)), (4, bits(2.0))]);
    let tokens: Vec<u32> = sorted.iter().map(|(token, _)| *token).collect();
    assert_eq!(tokens, vec![2, 4, 1, 3]);
    assert!(finish_lm_head(0, &[]).unwrap().is_empty());
    assert!(matches!(
        finish_lm_head(1, &[]),
        Err(ComputeError::InvalidShape("LM-head has no rows"))
    ));
    assert_eq!(finish_lm_head(1, &[(5, 0)]).unwrap(), vec![(5, 0)]);
}

#[test]
fn shards_of_the_head_count_their_rows() {
    let shape: [u64; 2] = [4, 2];
    let data = [0u8; 4];
    let block = build_synthetic_quant_block(&[tensor(
        "lm_head.weight.rows_100_104",
        TensorRole::LmHead,
        &shape,
        &data,
        4,
    )]);
    let layout = parse_quant_block(&block).unwrap();
    let shard = layout.tensor(0).unwrap();
    assert_eq!(tensor_global_row_range(shard, 4).unwrap(), (100, 104));
    assert!(lm_head_row_count_from_block(&block).unwrap().is_some());
    let parts = plan_lm_head(&block, 2, 1).unwrap();
    assert_eq!(parts[0].token(3), 103);
    assert!(matches!(
        plan_lm_head(&block, 2, 0),
        Err(ComputeError::ScratchTooSmall { required: 1, actual: 0 })
    ));
    assert!(matches!(
        plan_lm_head(&block, 1, 1),
        Err(ComputeError::InvalidShape("LM-head input too small"))
    ));
}

#[test]
fn neighbours_in_the_table_enclose_the_target() {
    let table = fp8_e4m3_sorted_lut();
    assert_eq!(table.len(), 256);
    for target in [-1000.0f32, -3.3, 0.0, 0.7, 300.0, 1000.0] {
        let (lower, upper) = lut_neighbours(&table, target.to_bits());
        let (lower, upper) = (f32::from_bits(lower), f32::from_bits(upper));
        assert!(lower < target || target <= -480.0);
        assert!(target <= upper || target > 480.0);
    }
}

#[test]
fn decimal_digits_are_read_back() {
    for number in [0u64, 7, 10, 4096, u64::MAX] {
        let mut text = Vec::new();
        push_decimal(&mut text, number);
        assert_eq!(text, number.to_string().into_bytes());
        assert_eq!(parse_decimal(&text, u64::MAX), Some(number));
    }
    assert_eq!(parse_decimal(b"18446744073709551616", u64::MAX), None);
    assert_eq!(parse_decimal(b"", u64::MAX), None);
}

#[test]
fn little_endian_numbers_are_read_back() {
    let mut raw = Vec::new();
    push_u16(&mut raw, 0x1234);
    push_u32(&mut raw, 0x89abcdef);
    push_u64(&mut raw, 0x0123456789abcdef);
    assert_eq!(load_u16(&raw, 0), 0x1234);
    assert_eq!(load_u32(&raw, 2), 0x89abcdef);
    assert_eq!(load_u64(&raw, 6), 0x0123456789abcdef);
    assert_eq!(bytes_find(b"abcabc", b"bc"), Some(1));
    assert_eq!(bytes_rfind(b"abcabc", b"bc"), Some(4));
    assert!(bytes_contain(b"abc", b"") && !bytes_contain(b"abc", b"d"));
    assert!(bytes_start_with(b"abc", b"ab") && bytes_end_with(b"abc", b"bc"));
    assert_eq!(bytes_to_lower(b"AbZ1"), b"abz1".to_vec());
}

#[test]
fn rankings_are_stable() {
    let items = [(1i128, 'a'), (5, 'b'), (1, 'c'), (5, 'd'), (9, 'e')];
    let order: String = rank_descending(&items).iter().map(|(_, item)| *item).collect();
    assert_eq!(order, "ebdac");
    let values = [-1.0f32, -0.0, 0.0, 0.5, f32::INFINITY];
    for pair in values.windows(2) {
        let (low, high) = (pair[0].to_bits(), pair[1].to_bits());
        assert!(total_order_key(low) < total_order_key(high));
        assert!(total_above(high, low) && !total_above(low, high));
        assert!(number_order_key(low) <= number_order_key(high));
    }
    assert!(!bits_greater(0.0f32.to_bits(), (-0.0f32).to_bits()));
    assert!(bits_greater(1.0f32.to_bits(), 0.5f32.to_bits()));
    assert!(bits_are_nan(f32::NAN.to_bits()));
}

#[test]
fn the_best_scores_are_kept() {
    let mut best: Vec<(u8, u32)> = Vec::new();
    for (item, score) in [(1u8, 0.1f32), (2, 5.0), (3, 3.0), (4, 4.0), (5, -1.0)] {
        push_topk_candidate(&mut best, 2, item, score.to_bits());
    }
    let mut items: Vec<u8> = best.iter().map(|(item, _)| *item).collect();
    items.sort();
    assert_eq!(items, vec![2, 4]);
}

#[test]
fn routes_go_to_available_experts() {
    let scores: Vec<u32> = [0.1f32, 0.9, 0.5].iter().map(|value| value.to_bits()).collect();
    let hashed = select_hashed(&[2, 7, 0, 1], &[0, 2], &scores, 2);
    assert_eq!(
        hashed,
        vec![
            ExpertRoute { expert_id: 2, score_bits: scores[2] },
            ExpertRoute { expert_id: 0, score_bits: scores[0] },
        ]
    );
    let candidates = route_candidates(&[0, 2, 9], &scores, None);
    assert_eq!(candidates.len(), 2);
    let choices: Vec<(u32, ExpertRoute)> = candidates
        .iter()
        .map(|candidate| {
            let route = ExpertRoute {
                expert_id: candidate.expert_id,
                score_bits: candidate.score_bits,
            };
            (candidate.score_bits, route)
        })
        .collect();
    assert_eq!(select_scored(&choices, 1)[0].expert_id, 2);
    assert_eq!(select_top_experts(&scores, 2)[1].expert_id, 2);
}

#[test]
fn static_tables_route_tokens() {
    let shape: [u64; 2] = [2, 2];
    let gate_shape: [u64; 2] = [2, 4];
    let table: Vec<u8> = [3i64, 1, 0, 2].iter().flat_map(|id| id.to_le_bytes()).collect();
    let gate = [0u8; 4];
    let block = build_synthetic_quant_block(&[
        tensor(
            "layers.0.ffn.gate.tid2eid",
            TensorRole::Router,
            &shape,
            &table,
            QUANT_DEEPSEEK_I64_AUX,
        ),
        tensor("layers.0.ffn.gate.weight", TensorRole::Router, &gate_shape, &gate, 4),
    ]);
    let mut options = RouteOptions::from_config(&config(), 0, 1);
    assert_eq!(options.hash_token_id, Some(1));
    assert_eq!(options.math, RouterMath::DeepSeekV4SqrtSoftplus);
    match plan_route_rule(&block, 2, options).unwrap() {
        RouteRule::Hashed(ids) => assert_eq!(ids, vec![0, 2]),
        RouteRule::Scored(_) => panic!("no static table"),
    }
    options.hash_token_id = None;
    assert!(matches!(plan_route_rule(&block, 2, options).unwrap(), RouteRule::Scored(None)));
    options.hash_token_id = Some(9);
    assert!(plan_route_rule(&block, 2, options).is_err());
}

#[test]
fn scratch_covers_both_kinds_of_attention() {
    for config in [
        config(),
        ComputeConfig::glm52_like(
            6144,
            CpuFeatures { avx512f: true, avx2: true, fma: true },
        ),
    ] {
        let scratch = config.prefill_scratch_f32();
        assert!(plan_probe_dims(&config, scratch).is_ok());
        if config.attention_kind == AttentionKind::DeepSeekV4Mla {
            assert!(plan_mla_dims(&config).is_ok());
        }
    }
    assert!(matches!(
        plan_probe_dims(&config(), 1),
        Err(ComputeError::ScratchTooSmall { actual: 1, .. })
    ));
    let features = |avx512f: bool, avx2: bool, fma: bool| CpuFeatures { avx512f, avx2, fma };
    assert_eq!(detect_best_kernel(features(true, true, true)), CpuKernel::Avx512);
    assert_eq!(detect_best_kernel(features(false, true, true)), CpuKernel::Avx2);
    assert_eq!(detect_best_kernel(features(false, false, false)), CpuKernel::Scalar);
}

#[test]
fn positions_have_spans_of_their_own() {
    assert_eq!(position_span(12, 4, 0), Some((0, 4)));
    assert_eq!(position_span(12, 4, 2), Some((8, 12)));
    assert_eq!(position_span(12, 4, 3), None);
    assert_eq!(moe_output(true, true), MoeOutput::RoutedAndShared);
    assert_eq!(moe_output(true, false), MoeOutput::Routed);
    assert_eq!(moe_output(false, true), MoeOutput::Shared);
    assert_eq!(moe_output(false, false), MoeOutput::Unchanged);
    let bits = |values: &[f32]| values.iter().map(|value| value.to_bits()).collect::<Vec<u32>>();
    assert!(route_weights_valid(&bits(&[0.5, 0.0])));
    assert!(!route_weights_valid(&bits(&[0.5, -0.5])));
    assert!(!route_weights_valid(&bits(&[f32::NAN])));
    assert!(!weight_sum_usable(&bits(&[0.0, 0.0]), 0.0f32.to_bits()));
}

fn probe_layout(block: &[u8]) -> QuantBlockLayout<'_> {
    parse_quant_block(block).unwrap()
}

#[test]
fn layers_start_by_their_kind() {
    let shape: [u64; 2] = [2, 4];
    let data = [0u8; 4];
    let embed = build_synthetic_quant_block(&[tensor(
        "model.embed_tokens.weight",
        TensorRole::Embed,
        &shape,
        &data,
        4,
    )]);
    let (step, stats) = plan_layer_start(Some(&embed), &[], &config()).unwrap();
    assert_eq!(step, LayerStep::Skip);
    assert_eq!(stats.dense_bytes, embed.len());
    let attention = build_synthetic_quant_block(&[tensor(
        "layers.0.attn.wq_a.weight",
        TensorRole::QProj,
        &shape,
        &data,
        4,
    )]);
    let mut plain = config();
    let (step, _) = plan_layer_start(Some(&attention), &[false], &plain).unwrap();
    assert_eq!(step, LayerStep::HyperConnected);
    plain.hc_mult = 1;
    let (step, _) = plan_layer_start(Some(&attention), &[false], &plain).unwrap();
    assert_eq!(step, LayerStep::Residual);
    assert!(matches!(
        plan_layer_start(None, &[], &plain),
        Err(ComputeError::InvalidPointer(_))
    ));
    assert!(matches!(
        plan_layer_start(Some(&attention), &[true], &plain),
        Err(ComputeError::InvalidPointer(_))
    ));
    let layout = probe_layout(&attention);
    plain.attention_kind = AttentionKind::GlmDsaProbe;
    assert!(plan_probe_inputs(&layout, &plain, 4, 1000).is_ok());
    assert!(matches!(
        plan_mlp(&attention, &[], 4, 1000, &plain).unwrap(),
        MlpPlan::NormOnly | MlpPlan::Experts { .. }
    ));
}

#[test]
fn products_and_rotations_are_checked() {
    let parts =
        GemvParts { input: true, packed_weights: true, scales: true, zero_points: true, output: true };
    assert!(validate_fused_gemv_args(1, 1, 1, parts).is_ok());
    assert!(matches!(
        validate_fused_gemv_args(0, 1, 1, parts),
        Err(ComputeError::InvalidShape(_))
    ));
    assert!(matches!(
        validate_fused_gemv_args(1, 1, 0, parts),
        Err(ComputeError::EmptyGroupSize)
    ));
    assert!(matches!(
        validate_fused_gemv_args(1, 1, 1, GemvParts { scales: false, ..parts }),
        Err(ComputeError::InvalidPointer("gemv.scales"))
    ));
    assert!(check_sgemm(1, 1, 1, true, true, true).is_ok());
    assert!(check_sgemm(1, 1, 1, true, false, true).is_err());
    let theta = 10_000.0f32.to_bits();
    assert!(check_rope(4, 4, theta).is_none());
    assert!(check_rope(4, 3, theta).is_some());
    assert!(check_rope(2, 4, theta).is_some());
    assert!(check_rope_freqs(4, 2).is_none());
    assert!(check_rope_freqs(3, 2).is_some());
    assert!(check_rope_heads(8, 2, 4, 2, 2, theta).is_none());
    assert!(check_rope_heads(7, 2, 4, 2, 2, theta).is_some());
}

#[test]
fn blocks_without_scales_cannot_be_unpacked() {
    let features = CpuFeatures { avx512f: false, avx2: false, fma: false };
    let scales = [1.0f32.to_bits()];
    let params = QuantBlockParams {
        format: DiskQuantFormat::Int4Affine,
        group_size: 2,
        scales: &scales,
        zero_points: &[1],
    };
    let unpacked = |params: QuantBlockParams<'_>, len: usize| {
        dequantize_block_simd(&[0x21, 0xf3], params, len, features).map(|(_, values)| values)
    };
    // The last scale and zero point stand for the groups behind them.
    let one = scales[0];
    assert_eq!(unpacked(params, 4).unwrap(), vec![(0, one), (1, one), (2, one), (14, one)]);
    assert!(matches!(
        unpacked(QuantBlockParams { group_size: 0, ..params }, 4),
        Err(ComputeError::EmptyGroupSize)
    ));
    assert!(matches!(
        unpacked(QuantBlockParams { scales: &[], ..params }, 4),
        Err(ComputeError::MissingScale { group: 0 })
    ));
    assert!(matches!(
        unpacked(QuantBlockParams { zero_points: &[], ..params }, 4),
        Err(ComputeError::MissingZeroPoint { group: 0 })
    ));
    assert!(matches!(
        unpacked(params, 3),
        Err(ComputeError::OutputTooSmall { required: 4, actual: 3 })
    ));
    let bytes = QuantBlockParams { format: DiskQuantFormat::Int8Symmetric, ..params };
    assert_eq!(unpacked(bytes, 2).unwrap(), vec![(0x21, one), (-13, one)]);
}

#[test]
fn norms_need_their_weights() {
    let shape: [u64; 1] = [2];
    let block = build_synthetic_quant_block(&[
        tensor("norm.weight", TensorRole::Norm, &shape, &[0, 1, 2, 3], QUANT_DEEPSEEK_BF16_AUX),
        tensor("values", TensorRole::Unknown, &shape, &[0; 8], QUANT_DEEPSEEK_F32_AUX),
    ]);
    let layout = parse_quant_block(&block).unwrap();
    let norm = layout.tensor(0).unwrap();
    assert!(matches!(plan_weighted_rms_norm(norm, 2, 2).unwrap(), NormPlan::Bf16(_)));
    assert!(plan_weighted_rms_norm(norm, 3, 3).is_err());
    assert_eq!(f32_tensor_values(layout.tensor(1).unwrap(), 2).unwrap(), vec![0, 0]);
    assert!(f32_tensor_values(layout.tensor(1).unwrap(), 3).is_err());
}
