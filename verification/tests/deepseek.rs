//! Names, storage kinds and number formats of DeepSeek tensors.

use zc_infer_core::deepseek_v4::{
    attention_plan_for_compress_ratio, classify_tensor_name, compute_thread_count,
    decode_fp4_e2m1, decode_fp8_e4m3, decode_ue8m0_scale, deepseek_quant_format_name,
    deepseek_v4_fp4_expert_scratch_len, fp4_rows_split_into_groups, fp4_weight_at,
    fp8_e4m3_base_lut, mhc_plan, packed_row_bytes, parallel_row_chunks, route_weights_divided,
    select_experts_by_score, simd_avx2_fma_available, storage_kind_for, ue8m0_scale_lut,
    unpack_fp4_e2m1_packed_slice, unpack_fp4_pair, unpack_fp8_e4m3_slice, validate_fp4_expert,
    validate_fp4_matvec, DeepSeekV4Fp4Expert, DeepSeekV4KernelError, DeepSeekV4StorageKind,
    DeepSeekV4TensorRole, Fp4Matvec, FP4_E2M1_BASE_LUT,
};

#[test]
fn classifies_real_deepseek_v4_names() {
    assert_eq!(classify_tensor_name("embed.weight"), DeepSeekV4TensorRole::Embed);
    assert_eq!(classify_tensor_name("head.weight"), DeepSeekV4TensorRole::LmHead);
    assert_eq!(
        classify_tensor_name("layers.0.attn.wq_a.weight"),
        DeepSeekV4TensorRole::AttentionQ
    );
    assert_eq!(
        classify_tensor_name("layers.0.attn.wkv.scale"),
        DeepSeekV4TensorRole::AttentionKv
    );
    assert_eq!(
        classify_tensor_name("layers.0.mlp.experts.12.w1.weight"),
        DeepSeekV4TensorRole::Expert
    );
    assert_eq!(
        classify_tensor_name("layers.0.hc_attn_scale"),
        DeepSeekV4TensorRole::MhcAttention
    );
    assert_eq!(classify_tensor_name("mtp.0.e_proj.weight"), DeepSeekV4TensorRole::Mtp);
}

#[test]
fn separates_fp4_expert_from_scale_and_aux() {
    assert_eq!(
        storage_kind_for(DeepSeekV4TensorRole::Expert, "layers.0.mlp.experts.0.w1.weight"),
        DeepSeekV4StorageKind::Fp4Expert
    );
    assert_eq!(
        storage_kind_for(DeepSeekV4TensorRole::Expert, "layers.0.mlp.experts.0.w1.scale"),
        DeepSeekV4StorageKind::Scale
    );
    assert_eq!(
        storage_kind_for(DeepSeekV4TensorRole::MhcHead, "hc_head_scale"),
        DeepSeekV4StorageKind::Bf16OrFp32Aux
    );
}

fn fp8(byte: u8, scale: f32) -> f32 {
    f32::from_bits(decode_fp8_e4m3(byte)) * scale
}

fn fp4(nibble: u8, scale: f32) -> f32 {
    f32::from_bits(decode_fp4_e2m1(nibble)) * scale
}

fn ue8m0(byte: u8) -> f32 {
    f32::from_bits(decode_ue8m0_scale(byte))
}

#[test]
fn fp8_and_fp4_decode_zero_and_signed_values() {
    assert_eq!(fp8(0x00, 1.0), 0.0);
    assert_eq!(fp4(0x00, 1.0), 0.0);
    assert_eq!(ue8m0(0), 0.0);
    assert_eq!(ue8m0(120), 0.0078125);
    assert_eq!(ue8m0(116), 0.00048828125);
    assert!(fp8(0x38, 1.0) > 0.0);
    assert!(fp8(0xb8, 1.0) < 0.0);
    let (low, high) = unpack_fp4_pair(0xa2);
    let (lo, hi) = (f32::from_bits(low) * 2.0, f32::from_bits(high) * 2.0);
    assert!(lo > 0.0);
    assert!(hi < 0.0);
}

#[test]
fn vector_unpackers_preserve_order_and_bounds() {
    let mut patterns = [0u32; 3];
    assert_eq!(unpack_fp8_e4m3_slice(&[0x38, 0xb8, 0x00, 0x38], &mut patterns), 3);
    let fp8: Vec<f32> = patterns.iter().map(|bits| f32::from_bits(*bits) * 1.0).collect();
    assert!(fp8[0] > 0.0);
    assert!(fp8[1] < 0.0);
    assert_eq!(fp8[2], 0.0);

    let mut patterns = [0u32; 3];
    assert_eq!(unpack_fp4_e2m1_packed_slice(&[0xa2, 0x11], &mut patterns), 3);
    let fp4: Vec<f32> = patterns.iter().map(|bits| f32::from_bits(*bits) * 2.0).collect();
    assert!(fp4[0] > 0.0);
    assert!(fp4[1] < 0.0);
    assert!(fp4[2] > 0.0);
}

#[test]
fn fp4_lut_matches_decoder_bit_exact() {
    for nibble in 0..16u8 {
        assert_eq!(
            FP4_E2M1_BASE_LUT[nibble as usize],
            decode_fp4_e2m1(nibble),
            "nibble {nibble}"
        );
    }
}

#[test]
fn fp8_and_ue8m0_luts_match_decoders_bit_exact() {
    for byte in 0..=255u8 {
        assert_eq!(
            fp8_e4m3_base_lut()[byte as usize],
            decode_fp8_e4m3(byte),
            "fp8 byte {byte}"
        );
        assert_eq!(
            ue8m0_scale_lut()[byte as usize],
            decode_ue8m0_scale(byte),
            "ue8m0 byte {byte}"
        );
    }
}

#[test]
fn names_deepseek_raw_quant_formats() {
    assert_eq!(deepseek_quant_format_name(2401), "deepseek_fp8_e4m3");
    assert_eq!(deepseek_quant_format_name(2402), "deepseek_fp4_e2m1_packed");
    assert_eq!(deepseek_quant_format_name(777), "unknown");
}

#[test]
fn attention_and_mhc_plans_match_deepseek_config() {
    let ratio4 = attention_plan_for_compress_ratio(4);
    assert!(ratio4.uses_compressor);
    assert!(ratio4.uses_indexer);
    assert_eq!(ratio4.index_topk, 512);
    let ratio128 = attention_plan_for_compress_ratio(128);
    assert!(ratio128.uses_compressor);
    assert!(!ratio128.uses_indexer);
    let hc = mhc_plan();
    assert_eq!(hc.hc_mult, 4);
    assert_eq!(hc.sinkhorn_iters, 20);
    assert!(hc.has_attention_hc && hc.has_ffn_hc && hc.has_head_hc);
}

#[test]
fn fp8_values_match_the_arithmetic_of_the_format() {
    for byte in 0..=255u8 {
        let sign = if byte >= 128 { -1.0f32 } else { 1.0 };
        let exponent = (byte >> 3) & 15;
        let mantissa = (byte & 7) as f32;
        let expected = if exponent == 0 && byte & 7 == 0 {
            0.0
        } else if exponent == 0 {
            sign * mantissa / 8.0 * 2.0f32.powi(-6)
        } else {
            sign * (1.0 + mantissa / 8.0) * 2.0f32.powi(exponent as i32 - 7)
        };
        assert_eq!(fp8(byte, 1.0), expected, "byte {byte}");
    }
}

#[test]
fn scales_are_powers_of_two() {
    for byte in 1..=254u8 {
        assert_eq!(ue8m0(byte), 2.0f32.powi(byte as i32 - 127), "byte {byte}");
    }
}

#[test]
fn fp4_products_name_what_is_wrong_with_them() {
    let spec = Fp4Matvec {
        packed_weight: &[0x21, 0x43],
        ue8m0_scales: &[127, 128],
        rows: 2,
        cols: 2,
        scale_cols: 1,
    };
    assert_eq!(validate_fp4_matvec(spec, 2, 2), Ok(()));
    assert_eq!(
        validate_fp4_matvec(Fp4Matvec { rows: 0, ..spec }, 2, 2),
        Err(DeepSeekV4KernelError::EmptyShape)
    );
    assert_eq!(
        validate_fp4_matvec(Fp4Matvec { scale_cols: 3, ..spec }, 2, 2),
        Err(DeepSeekV4KernelError::InvalidShape)
    );
    assert_eq!(
        validate_fp4_matvec(Fp4Matvec { packed_weight: &[0x21], ..spec }, 2, 2),
        Err(DeepSeekV4KernelError::PackedWeightTooSmall)
    );
    assert_eq!(
        validate_fp4_matvec(Fp4Matvec { ue8m0_scales: &[127], ..spec }, 2, 2),
        Err(DeepSeekV4KernelError::ScaleTooSmall)
    );
    assert_eq!(
        validate_fp4_matvec(spec, 1, 2),
        Err(DeepSeekV4KernelError::InputTooSmall)
    );
    assert_eq!(
        validate_fp4_matvec(spec, 2, 1),
        Err(DeepSeekV4KernelError::OutputTooSmall)
    );
    assert!(!fp4_rows_split_into_groups(Fp4Matvec { cols: 1, ..spec }));
    let (weight, scale) = fp4_weight_at(spec, 1, 0);
    assert_eq!((weight, scale), (decode_fp4_e2m1(3), 2.0f32.to_bits()));
    let (weight, _) = fp4_weight_at(spec, 1, 1);
    assert_eq!(weight, decode_fp4_e2m1(4));
    assert_eq!(packed_row_bytes(5), 3);
}

#[test]
fn fp4_experts_need_matching_matrices() {
    let first = Fp4Matvec {
        packed_weight: &[0x02],
        ue8m0_scales: &[127],
        rows: 1,
        cols: 2,
        scale_cols: 1,
    };
    let last = Fp4Matvec {
        packed_weight: &[0x02, 0x04],
        ue8m0_scales: &[127, 127],
        rows: 2,
        cols: 1,
        scale_cols: 1,
    };
    let expert = DeepSeekV4Fp4Expert { w1: first, w3: first, w2: last };
    assert_eq!(validate_fp4_expert(expert, 2, 2, 2), Ok(()));
    assert_eq!(
        validate_fp4_expert(DeepSeekV4Fp4Expert { w2: first, ..expert }, 2, 2, 2),
        Err(DeepSeekV4KernelError::InvalidShape)
    );
    assert_eq!(deepseek_v4_fp4_expert_scratch_len(2048), 4096);
}

#[test]
fn rows_are_shared_out_in_order() {
    assert_eq!(compute_thread_count(Some(3), Some(8)), 3);
    assert_eq!(compute_thread_count(None, None), 1);
    let chunks = parallel_row_chunks(100, 32, 8);
    let mut next = 0;
    for (start, count) in &chunks {
        assert_eq!(*start, next);
        assert!(*count > 0);
        next += count;
    }
    assert_eq!(next, 100);
    assert_eq!(parallel_row_chunks(10, 32, 8), vec![(0, 10)]);
    assert!(simd_avx2_fma_available(true, true));
    assert!(!simd_avx2_fma_available(true, false));
}

#[test]
fn experts_are_chosen_by_score() {
    let scores = [0.5f32, 2.0, 2.0, -1.0].map(f32::to_bits);
    assert_eq!(select_experts_by_score(&scores, 3), vec![1, 2, 0]);
    assert_eq!(select_experts_by_score(&scores, 0), Vec::<usize>::new());
    assert!(route_weights_divided(1.0f32.to_bits()));
    assert!(!route_weights_divided(0.0f32.to_bits()));
}
