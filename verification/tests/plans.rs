//! What is planned for a block before any value is computed.

use zc_infer_core::compute::compressor::{
    plan_compressor_projection, CompressorLayerState, CompressorStates,
};
use zc_infer_core::compute::config::{AttentionKind, ComputeConfig, CpuFeatures};
use zc_infer_core::compute::counts::{add_counts, count_rows};
use zc_infer_core::compute::error::ComputeError;
use zc_infer_core::compute::gemv::GemvPlan;
use zc_infer_core::compute::layer::{
    plan_attention_block, plan_attention_entry, plan_moe, plan_named_layer_norm, AttentionStep,
};
use zc_infer_core::compute::lookup::{
    final_norm_tensor, find_optional_tensor_by_name, first_rank2_tensor_by_role,
    router_gate_tensor, router_tid2eid_tensor, tensor_by_role_with_cols, tensor_matrix_shape,
};
use zc_infer_core::compute::mhc::{plan_mhc_experts, plan_mhc_finish, CarryLens};
use zc_infer_core::compute::moe::{plan_expert_for_positions, MoeOutput};
use zc_infer_core::compute::mtp::plan_mtp_draft;
use zc_infer_core::compute::quant_block::{parse_quant_block, TensorRole};
use zc_infer_core::compute::routing::plan_router;
use zc_infer_core::compute::synthetic::{build_synthetic_quant_block, SyntheticTensor};
use zc_infer_core::compute::values::{
    attention_sink_values, bf16_tensor_value, read_f32_tensor_values, router_bias_values,
    tid2eid_expert_ids,
};
use zc_infer_core::deepseek_v4::{
    QUANT_DEEPSEEK_BF16_AUX, QUANT_DEEPSEEK_F32_AUX, QUANT_DEEPSEEK_FP8_E4M3,
    QUANT_DEEPSEEK_I64_AUX, QUANT_DEEPSEEK_UE8M0_SCALE,
};
use zc_infer_core::glm_dsa_indexer::{
    plan_topk_positions, select_topk_positions, IndexerConfig,
};

fn tensor<'a>(
    name: &'a str,
    role: TensorRole,
    shape: &'a [u64],
    data: &'a [u8],
    quant_format: u16,
) -> SyntheticTensor<'a> {
    SyntheticTensor {
        name,
        role_code: role.code() as u32,
        shape,
        data,
        dtype_original: match quant_format {
            QUANT_DEEPSEEK_F32_AUX => 12,
            QUANT_DEEPSEEK_I64_AUX => 9,
            _ => 11,
        },
        quant_format,
        scale_bits: 1.0f32.to_bits(),
        zero_point_bits: 0,
    }
}

fn config() -> ComputeConfig {
    let features = CpuFeatures { avx512f: false, avx2: false, fma: false };
    let mut config = ComputeConfig::deepseek_v4_flash(features);
    config.hidden_size = 4;
    config.intermediate_size = 4;
    config.hc_mult = 2;
    config
}

fn bf16(values: &[f32]) -> Vec<u8> {
    values.iter().flat_map(|value| ((value.to_bits() >> 16) as u16).to_le_bytes()).collect()
}

fn f32s(values: &[f32]) -> Vec<u8> {
    values.iter().flat_map(|value| value.to_le_bytes()).collect()
}

fn bits(values: &[f32]) -> Vec<u32> {
    values.iter().map(|value| value.to_bits()).collect()
}

/// Norms, a router with its bias and table, and attention sinks.
fn mixed_block() -> Vec<u8> {
    let norm = bf16(&[1.0, 2.0, 3.0, 4.0]);
    let gate = bf16(&[0.0; 12]);
    let bias = f32s(&[0.5, -0.5, 1.5]);
    let sink = f32s(&[0.25, 0.75]);
    let table: Vec<u8> = [2i64, 0, 1, 2].iter().flat_map(|id| id.to_le_bytes()).collect();
    let (wide, tall, square): ([u64; 1], [u64; 2], [u64; 2]) = ([4], [3, 4], [2, 2]);
    let (three, two): ([u64; 1], [u64; 1]) = ([3], [2]);
    build_synthetic_quant_block(&[
        tensor(
            "layers.0.attn_norm.weight",
            TensorRole::Norm,
            &wide,
            &norm,
            QUANT_DEEPSEEK_BF16_AUX,
        ),
        tensor(
            "layers.0.ffn.gate.weight",
            TensorRole::Router,
            &tall,
            &gate,
            QUANT_DEEPSEEK_BF16_AUX,
        ),
        tensor(
            "layers.0.ffn.gate.bias",
            TensorRole::Router,
            &three,
            &bias,
            QUANT_DEEPSEEK_F32_AUX,
        ),
        tensor(
            "layers.0.attn.attn_sink",
            TensorRole::Unknown,
            &two,
            &sink,
            QUANT_DEEPSEEK_F32_AUX,
        ),
        tensor(
            "layers.0.ffn.gate.tid2eid",
            TensorRole::Router,
            &square,
            &table,
            QUANT_DEEPSEEK_I64_AUX,
        ),
        tensor("model.norm.weight", TensorRole::Norm, &wide, &norm, QUANT_DEEPSEEK_BF16_AUX),
    ])
}

/// A block of one packed matrix of four rows and four columns.
fn up_block() -> Vec<u8> {
    let shape: [u64; 2] = [4, 4];
    build_synthetic_quant_block(&[tensor(
        "expert.up_proj.weight",
        TensorRole::UpProj,
        &shape,
        &[0x21u8; 8],
        4,
    )])
}

#[test]
fn tensors_are_found_by_role_and_name() {
    let block = mixed_block();
    let layout = parse_quant_block(&block).unwrap();
    let gate = router_gate_tensor(&layout, 4).unwrap().unwrap();
    assert_eq!(gate.name, b"layers.0.ffn.gate.weight");
    let shape = tensor_matrix_shape(gate).unwrap();
    assert_eq!((shape.rows, shape.cols), (3, 4));
    assert_eq!(shape.elements().unwrap(), 12);
    let table = router_tid2eid_tensor(&layout).unwrap().unwrap();
    assert_eq!(table.name, b"layers.0.ffn.gate.tid2eid");
    let matrix = first_rank2_tensor_by_role(&layout, TensorRole::Router).unwrap().unwrap();
    assert_eq!(matrix.name, b"layers.0.ffn.gate.weight");
    let narrow = tensor_by_role_with_cols(&layout, TensorRole::Router, 2).unwrap().unwrap();
    assert_eq!(narrow.name, b"layers.0.ffn.gate.tid2eid");
    assert!(find_optional_tensor_by_name(&layout, b"layers.0.attn.attn_sink").unwrap().is_some());
    assert!(find_optional_tensor_by_name(&layout, b"attn_sink").unwrap().is_none());
    let last = final_norm_tensor(&layout, 4).unwrap().unwrap();
    assert_eq!(last.name, b"model.norm.weight");
    assert!(final_norm_tensor(&layout, 5).unwrap().is_none());
}

#[test]
fn small_tensors_give_their_values() {
    let block = mixed_block();
    let layout = parse_quant_block(&block).unwrap();
    assert_eq!(router_bias_values(&layout, 3).unwrap(), Some(bits(&[0.5, -0.5, 1.5])));
    assert_eq!(router_bias_values(&layout, 2).unwrap(), Some(bits(&[0.5, -0.5])));
    assert_eq!(router_bias_values(&layout, 4).unwrap(), None);
    assert_eq!(attention_sink_values(&layout, 2).unwrap(), Some(bits(&[0.25, 0.75])));
    let norm = layout.tensor(0).unwrap();
    assert_eq!(bf16_tensor_value(norm, 2).unwrap(), 3.0f32.to_bits());
    assert!(matches!(
        bf16_tensor_value(norm, 4),
        Err(ComputeError::InvalidShape("BF16 tensor value out of range"))
    ));
    let sink = layout.tensor(3).unwrap();
    assert_eq!(read_f32_tensor_values(&sink, 1), Some(bits(&[0.25])));
    assert_eq!(read_f32_tensor_values(&sink, 3), None);
    let table = layout.tensor(4).unwrap();
    assert_eq!(tid2eid_expert_ids(table, 0).unwrap(), vec![2, 0]);
    assert_eq!(tid2eid_expert_ids(table, 1).unwrap(), vec![1, 2]);
    assert!(matches!(
        tid2eid_expert_ids(table, 2),
        Err(ComputeError::InvalidShape("tid2eid token id out of range"))
    ));
}

#[test]
fn routers_score_each_expert_once() {
    let block = mixed_block();
    let plan = plan_router(&block, 4, 8).unwrap().unwrap();
    assert_eq!(plan.rows, 3);
    assert!(matches!(plan_router(&block, 4, 2), Err(ComputeError::ScratchTooSmall { .. })));
    assert!(plan_router(&up_block(), 4, 8).unwrap().is_none());
}

#[test]
fn attention_starts_with_its_norm() {
    let block = mixed_block();
    let entry = plan_attention_entry(&block, 4, 16, &config()).unwrap();
    assert_eq!(entry.hidden, 4);
    assert!(entry.norm.is_some());
    assert!(matches!(
        plan_attention_entry(&block, 4, 4, &config()),
        Err(ComputeError::ScratchTooSmall { required: 5, actual: 4 })
    ));
    assert!(matches!(
        plan_attention_entry(&block, 0, 16, &config()),
        Err(ComputeError::InvalidShape("hidden_states is empty"))
    ));
    assert!(plan_named_layer_norm(&block, "post_attention_layernorm", 4, 16).unwrap().is_none());
}

#[test]
fn attention_follows_what_the_block_holds() {
    let up = up_block();
    match plan_attention_block(&up, 0, 4, 16, &config()).unwrap() {
        AttentionStep::Plain(plan) => {
            assert_eq!((plan.rows, plan.cols, plan.values), (4, 4, 16));
        }
        _ => panic!("no attention matrices"),
    }
    let shape: [u64; 2] = [2, 4];
    let data = [0u8; 4];
    let attention = build_synthetic_quant_block(&[
        tensor("layers.0.attn.wq_a.weight", TensorRole::QProj, &shape, &data, 4),
        tensor("layers.0.attn.indexer.wk.weight", TensorRole::Unknown, &shape, &data, 4),
    ]);
    let mut kind = config();
    assert!(matches!(
        plan_attention_block(&attention, 2047, 4, 16, &kind).unwrap(),
        AttentionStep::Mla
    ));
    kind.attention_kind = AttentionKind::GlmDsaProbe;
    assert!(matches!(
        plan_attention_block(&attention, 0, 4, 16, &kind).unwrap(),
        AttentionStep::Probe
    ));
    assert!(matches!(
        plan_attention_block(&attention, 2048, 4, 16, &kind),
        Err(ComputeError::InvalidShape("GLM-DSA indexer required for context above topk"))
    ));
}

#[test]
fn experts_are_planned_before_they_run() {
    let up = up_block();
    let moe = plan_moe(&up, false, &[&up, &up], 4, 64, &config()).unwrap();
    assert_eq!(moe.routed.len(), 2);
    assert!(moe.shared.is_none());
    assert!(plan_expert_for_positions(&up, 4, 0, 64, &config()).unwrap().is_none());
    assert!(plan_expert_for_positions(&up, 4, 2, 64, &config()).unwrap().is_some());
    assert!(matches!(
        plan_expert_for_positions(&up, 4, 2, 4, &config()),
        Err(ComputeError::ScratchTooSmall { required: 5, actual: 4 })
    ));
}

#[test]
fn copies_get_the_output_of_the_experts() {
    let up = up_block();
    let carry = CarryLens { gate_input: 4, post: 2, comb: 4, residual: 8 };
    let moe = plan_mhc_experts(&up, &[&up], carry, 64, &config()).unwrap();
    assert_eq!(moe.routed.len(), 1);
    let finish = plan_mhc_finish(&up, true, carry, 64, &config()).unwrap();
    assert!(finish.shared.is_none());
    assert_eq!(finish.output, MoeOutput::Routed);
    let short = CarryLens { gate_input: 4, post: 2, comb: 3, residual: 8 };
    assert!(plan_mhc_experts(&up, &[&up], short, 64, &config()).is_err());
    assert!(plan_mhc_finish(&up, true, short, 64, &config()).is_err());
}

#[test]
fn projections_of_the_compressor_go_by_their_format() {
    let (wide, one): ([u64; 2], [u64; 2]) = ([2, 4], [1, 1]);
    let half = bf16(&[1.0; 8]);
    let mut odd = tensor("c", TensorRole::Unknown, &wide, &half, QUANT_DEEPSEEK_BF16_AUX);
    odd.dtype_original = 12;
    let block = build_synthetic_quant_block(&[
        tensor("a.weight", TensorRole::Unknown, &wide, &[1u8; 8], QUANT_DEEPSEEK_FP8_E4M3),
        tensor("a.scale", TensorRole::Unknown, &one, &[127u8], QUANT_DEEPSEEK_UE8M0_SCALE),
        odd,
        tensor("d", TensorRole::Unknown, &wide, &[0u8; 4], 4),
        tensor("e", TensorRole::Unknown, &wide, &half, QUANT_DEEPSEEK_F32_AUX),
    ]);
    let layout = parse_quant_block(&block).unwrap();
    assert_eq!(layout.header().tensor_count, 5);
    let plan = |index: usize, inputs: usize| {
        let tensor = layout.tensor(index).unwrap();
        plan_compressor_projection(&layout, tensor, inputs, 2)
    };
    assert!(matches!(plan(0, 4).unwrap(), GemvPlan::Fp8(_)));
    assert!(matches!(plan(2, 4).unwrap(), GemvPlan::Bf16(_)));
    assert!(matches!(plan(3, 4).unwrap(), GemvPlan::Int4(_)));
    assert!(plan(2, 3).is_err());
    assert!(matches!(plan(4, 4), Err(ComputeError::UnsupportedQuantFormat(_))));
}

#[test]
fn blocks_of_the_compressor_are_full_in_time() {
    let mut state = CompressorLayerState::<u32>::new(2);
    for pos in 0..4 {
        assert!(!state.is_full(4, 1));
        state.feed(None, pos, &[1, 2], &[3, 4]);
    }
    assert!(state.is_full(4, 1));
    assert!(!state.is_full(4, 2));
    assert!(!state.is_full(0, 1));
    assert!(!CompressorStates::<u32>::new().can_flush(2, 1));
}

#[test]
fn weights_are_counted() {
    assert_eq!(add_counts(Some(2), Some(3)), Some(5));
    assert_eq!(add_counts(Some(usize::MAX), Some(1)), None);
    assert_eq!(add_counts(None, Some(1)), None);
    assert_eq!(count_rows(2, 3, 4), Some(24));
    assert_eq!(count_rows(0, usize::MAX, usize::MAX), Some(0));
    assert_eq!(count_rows(1, usize::MAX, 2), None);
    let shape: [u64; 2] = [4, 4];
    let half = bf16(&[1.0; 16]);
    let norm = bf16(&[1.0; 4]);
    let wide: [u64; 1] = [4];
    let block = build_synthetic_quant_block(&[
        tensor("enorm.weight", TensorRole::Norm, &wide, &norm, QUANT_DEEPSEEK_BF16_AUX),
        tensor("hnorm.weight", TensorRole::Norm, &wide, &norm, QUANT_DEEPSEEK_BF16_AUX),
        tensor("e_proj.weight", TensorRole::Unknown, &shape, &half, QUANT_DEEPSEEK_BF16_AUX),
        tensor("h_proj.weight", TensorRole::Unknown, &shape, &half, QUANT_DEEPSEEK_BF16_AUX),
    ]);
    let draft = plan_mtp_draft(&block, 4, 8, 8, 16, &config()).unwrap();
    assert_eq!((draft.copies, draft.values()), (2, Some(48)));
}

#[test]
fn leaving_the_indexer_out_changes_nothing_up_to_its_limit() {
    let config = IndexerConfig { n_heads: 1, head_dim: 1, top_k: 2048 };
    for (context, kept) in [(2048usize, 2048usize), (2049, 2048)] {
        let plan = plan_topk_positions(1, context, 1, context, context, config).unwrap();
        let scores = vec![1.0f32.to_bits(); context];
        let picked = select_topk_positions(plan, &scores);
        assert_eq!(picked.len(), kept);
        let all: Vec<usize> = (0..context).collect();
        assert_eq!(picked == all, context <= 2048);
    }
}
