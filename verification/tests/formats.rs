//! Model files, row indices, buffers, the scheduler, the expert cache, the
//! indexer and the tools.

use zc_infer_core::args::{
    arg_usize, next_arg, number_arg, number_or, parse_args, ArgError, ArgKind, ArgStep, Flag,
};
use zc_infer_core::bench::{
    check_fetched, count_ready, deterministic_routes, fill_packed, max_request_window,
    next_made_up, plan_bench, plan_place, rss_kb, BenchShapeError, FetchedError,
};
use zc_infer_core::compute::error::{ComputeError, DiskQuantFormat};
use zc_infer_core::compute::expert_cache::{
    check_status, ends_head, expert_file_name, http_request, now_ms, parse_http_url,
    parse_status_line, ExpertAction, ExpertCacheConfig, ExpertCacheError, ExpertLruCache,
};
use zc_infer_core::compute::phase1_prof::{add, dump_and_reset, Phase1Counters};
use zc_infer_core::compute::routing::ExpertRoute;
use zc_infer_core::direct_io::{
    external_read_len, runtime_buffer_count, BlockKind, BlockSpan, BufferPool, DirectIoError,
};
use zc_infer_core::glm_dsa_indexer::{
    plan_topk_positions, reuse_shared_indexer_positions, select_topk_positions, IndexerConfig,
    IndexerError,
};
use zc_infer_core::model_format::{
    apply_shard_map, assemble_layers, decode_engine_header, decode_experts, decode_layers,
    decode_manifest_header, model_family_name, plan_manifest, read_pack_entries,
    validate_expert, validate_header, validate_layer, validate_pack_format, EngineHeader,
    ExpertBlockDescDisk, ExpertPackEntryDisk, ExpertPackInfo, ExpertShardDisk,
    LayerBlockDescDisk, ManifestHeader, ModelFormatError, ModelManifest, MoELayerBlockDesc,
    ExpertPackFile, ShardMapFile, SideFile, FORMAT_VERSION, LAYER_BLOCK_COMPUTE, LAYER_BLOCK_GLOBAL_AUX, MODEL_MAGIC,
    QUANT_BLOCK_MAGIC,
};
use zc_infer_core::pair_map::PairMap;
use zc_infer_core::row_index::{
    decode_bf16_into, head_bytes, head_chunk, offer_rows, plan_head_rows, push_topk, resolve_core_path,
    RowIndexError, RowTensorIndex, RowTensorIndexFile, RowTensorRecord, DEEPSEEK_BF16_DTYPE,
    DEEPSEEK_BF16_QUANT,
};
use zc_infer_core::scheduler::{
    Batch, LoadOutcome, MoEIoScheduler, ReadyBlock, SchedulerError, SubmitRound,
};
use zc_infer_core::settings::{
    attends_one_by_one, configured_threads, lm_head_cache_enabled, sidecar_expert_merge_enabled,
    verbose_logging,
};
use zc_infer_core::{align_up_2mb, is_aligned_2mb, ALIGN_2MB};

fn catalog_entry(layer_id: u32, expert_id: u32, checksum: u64, dequant: u64) -> ExpertShardDisk {
    ExpertShardDisk {
        layer_id,
        expert_id,
        path: format!("experts/layer{layer_id}_expert{expert_id}.zcblk"),
        disk_bytes: ALIGN_2MB,
        payload_bytes: 16,
        dequant_bytes: dequant,
        quant_format: if dequant == 0 { 0 } else { 2400 },
        checksum,
    }
}

fn listed_expert(layer_id: u32, expert_id: u32, checksum: u64) -> ExpertBlockDescDisk {
    ExpertBlockDescDisk {
        layer_id,
        expert_id,
        disk_offset: 0,
        disk_bytes: ALIGN_2MB,
        payload_bytes: 16,
        dequant_bytes: 16,
        quant_format: 2400,
        route_rank_hint: 0,
        checksum,
    }
}

fn layer_block(layer_id: u32, flags: u32, experts: Vec<ExpertBlockDescDisk>) -> MoELayerBlockDesc {
    MoELayerBlockDesc {
        layer_id,
        flags,
        dense_offset: ALIGN_2MB,
        dense_disk_bytes: ALIGN_2MB,
        dense_payload_bytes: 16,
        dense_dequant_bytes: 16,
        experts,
    }
}

#[test]
fn shard_map_ignores_catalog_entries_outside_compact_manifest() {
    let entries = [catalog_entry(0, 0, 11, 0), catalog_entry(0, 8, 88, 0)];
    let mut layers = vec![layer_block(0, LAYER_BLOCK_COMPUTE, vec![listed_expert(0, 0, 11)])];

    let (map, merged) =
        apply_shard_map(&mut layers, "wohper-sharded-experts", &entries, false).unwrap();

    assert_eq!(merged, 0);
    assert_eq!(map.len(), 1);
    assert!(map.contains(0, 0));
    assert!(!map.contains(0, 8));
    assert_eq!(layers[0].experts.len(), 1);
}

#[test]
fn shard_map_merge_extends_compute_layer_expert_table() {
    let entries = [
        catalog_entry(0, 0, 11, 16),
        catalog_entry(0, 8, 88, 16),
        catalog_entry(1, 3, 33, 16),
    ];
    let mut layers = vec![
        layer_block(0, LAYER_BLOCK_GLOBAL_AUX, Vec::new()),
        layer_block(0, LAYER_BLOCK_COMPUTE, vec![listed_expert(0, 0, 11)]),
    ];

    let (map, merged) =
        apply_shard_map(&mut layers, "wohper-sharded-experts", &entries, true).unwrap();

    assert_eq!(merged, 1);
    assert_eq!(map.len(), 2);
    assert!(map.contains(0, 8));
    assert!(!map.contains(1, 3));
    assert!(layers[0].experts.is_empty(), "global aux must stay empty");
    assert_eq!(layers[1].experts.len(), 2);
    assert_eq!(layers[1].experts[0].expert_id, 0);
    assert_eq!(layers[1].experts[1].expert_id, 8);
    assert_eq!(layers[1].experts[1].disk_offset, 0);
    assert_eq!(layers[1].experts[1].quant_format, 2400);
    assert_eq!(layers[1].experts[1].dequant_bytes, 16);
}

#[test]
fn shard_maps_of_other_formats_and_sizes_are_refused() {
    let mut layers = vec![layer_block(0, LAYER_BLOCK_COMPUTE, vec![listed_expert(0, 0, 11)])];
    assert!(matches!(
        apply_shard_map(&mut layers, "other", &[], false),
        Err(ModelFormatError::UnsupportedFormat(SideFile::ShardMap))
    ));
    let mut entry = catalog_entry(0, 0, 11, 16);
    entry.disk_bytes = 100;
    assert!(matches!(
        apply_shard_map(&mut layers, "wohper-sharded-experts", &[entry], false),
        Err(ModelFormatError::Unaligned { value: 100, .. })
    ));
}

fn push_header(out: &mut Vec<u8>, header: &EngineHeader) {
    out.extend_from_slice(&header.magic);
    for value in [header.version, header.endian] {
        out.extend_from_slice(&value.to_le_bytes());
    }
    for value in [
        header.file_size,
        header.manifest_offset,
        header.manifest_size,
        header.tokenizer_offset,
        header.tokenizer_size,
        header.router_metadata_offset,
        header.router_metadata_size,
    ] {
        out.extend_from_slice(&value.to_le_bytes());
    }
    for value in [
        header.model_family,
        header.architecture,
        header.num_layers,
        header.hidden_size,
        header.num_attention_heads,
        header.num_kv_heads,
        header.experts_per_layer,
        header.active_experts_per_token,
        header.block_alignment,
        header.disk_quant_format,
    ] {
        out.extend_from_slice(&value.to_le_bytes());
    }
    for value in [header.manifest_checksum, header.file_checksum] {
        out.extend_from_slice(&value.to_le_bytes());
    }
}

fn header(num_layers: u32) -> EngineHeader {
    EngineHeader {
        magic: MODEL_MAGIC,
        version: FORMAT_VERSION,
        endian: 1,
        file_size: 8 * ALIGN_2MB,
        manifest_offset: ALIGN_2MB,
        manifest_size: 4096,
        tokenizer_offset: 2 * ALIGN_2MB,
        tokenizer_size: 10,
        router_metadata_offset: 3 * ALIGN_2MB,
        router_metadata_size: 20,
        model_family: 2,
        architecture: 7,
        num_layers,
        hidden_size: 4096,
        num_attention_heads: 64,
        num_kv_heads: 1,
        experts_per_layer: 256,
        active_experts_per_token: 6,
        block_alignment: ALIGN_2MB as u32,
        disk_quant_format: 2400,
        manifest_checksum: 5,
        file_checksum: 6,
    }
}

#[test]
fn headers_are_read_back_from_their_bytes() {
    let written = header(2);
    let mut raw = Vec::new();
    push_header(&mut raw, &written);
    assert_eq!(raw.len(), 128);
    let read = decode_engine_header(&raw).unwrap();
    assert_eq!(read.magic, MODEL_MAGIC);
    assert_eq!(read.file_size, 8 * ALIGN_2MB);
    assert_eq!(read.hidden_size, 4096);
    assert_eq!(read.file_checksum, 6);
    assert!(validate_header(&read).is_ok());
    assert!(decode_engine_header(&raw[..127]).is_none());
    assert_eq!(model_family_name(2), "deepseek_v4_flash");
}

#[test]
fn wrong_headers_are_named() {
    let mut bad = header(1);
    bad.magic[0] = 0;
    assert!(matches!(validate_header(&bad), Err(ModelFormatError::InvalidMagic(_))));
    bad = header(1);
    bad.version = 9;
    assert!(matches!(validate_header(&bad), Err(ModelFormatError::UnsupportedVersion(9))));
    bad = header(1);
    bad.tokenizer_offset = 5;
    assert!(matches!(
        validate_header(&bad),
        Err(ModelFormatError::Unaligned { field: "tokenizer_offset", value: 5 })
    ));
}

fn layer_desc(layer_id: u32, first: u32, count: u32) -> LayerBlockDescDisk {
    LayerBlockDescDisk {
        layer_id,
        flags: LAYER_BLOCK_COMPUTE,
        dense_offset: ALIGN_2MB,
        dense_disk_bytes: 2 * ALIGN_2MB,
        dense_payload_bytes: 10,
        dense_dequant_bytes: 20,
        tensor_count: 1,
        first_tensor_index: 0,
        first_expert_index: first,
        num_experts: count,
        quant_format: 2400,
        checksum_kind: 0,
        checksum: 77,
    }
}

#[test]
fn manifests_are_read_and_put_together() {
    let manifest = ManifestHeader {
        layer_count: 2,
        expert_count: 3,
        tensor_count: 0,
        reserved: 0,
        layer_desc_offset: 40,
        expert_desc_offset: 200,
        tensor_desc_offset: 0,
    };
    let mut raw = Vec::new();
    for value in [2u32, 3, 0, 0] {
        raw.extend_from_slice(&value.to_le_bytes());
    }
    for value in [40u64, 200, 0] {
        raw.extend_from_slice(&value.to_le_bytes());
    }
    assert_eq!(decode_manifest_header(&raw), Some(manifest));
    let spans = plan_manifest(&header(2), &manifest).unwrap();
    assert_eq!(spans.layers_offset, ALIGN_2MB + 40);
    assert_eq!(spans.layers_bytes, 144);
    assert_eq!(spans.experts_offset, ALIGN_2MB + 200);
    assert_eq!(spans.experts_bytes, 168);
    assert!(matches!(
        plan_manifest(&header(5), &manifest),
        Err(ModelFormatError::LayerCountMismatch { header: 5, manifest: 2 })
    ));

    let layers = [layer_desc(0, 0, 2), layer_desc(1, 2, 1)];
    let experts = [listed_expert(0, 0, 1), listed_expert(0, 1, 2), listed_expert(1, 0, 3)];
    let built = assemble_layers(&layers, &experts).unwrap();
    assert_eq!(built.len(), 2);
    assert_eq!(built[0].experts.len(), 2);
    assert_eq!(built[1].experts[0].checksum, 3);
    assert!(built[1].is_compute_block());
    assert!(matches!(
        assemble_layers(&[layer_desc(0, 1, 2)], &experts),
        Err(ModelFormatError::InvalidExpertTable { layer_id: 0 })
    ));
    assert!(matches!(
        assemble_layers(&[layer_desc(0, 2, 2)], &experts),
        Err(ModelFormatError::TruncatedManifest)
            | Err(ModelFormatError::InvalidExpertTable { layer_id: 0 })
    ));
}

#[test]
fn models_are_put_together_in_order() {
    let layers = [layer_desc(0, 0, 1)];
    let experts = [listed_expert(0, 0, 1)];
    let shard_map = |format: &str| ShardMapFile {
        format: format.to_string(),
        experts: vec![catalog_entry(0, 0, 1, 16), catalog_entry(0, 5, 2, 16)],
    };
    let pack = |format: &str, present: bool| ExpertPackFile {
        format: format.to_string(),
        file: "/m/pack.bin".to_string(),
        present,
        entries: vec![ExpertPackEntryDisk {
            layer_id: 0,
            expert_id: 5,
            offset: 0,
            disk_bytes: ALIGN_2MB,
            payload_bytes: 4,
        }],
    };
    let load = |map: Option<ShardMapFile>, merge: bool, pack: Option<ExpertPackFile>| {
        ModelManifest::load(header(1), &layers, &experts, "/m".to_string(), map, merge, pack)
    };
    let (model, merged) = load(None, true, None).unwrap();
    assert_eq!((model.layers.len(), merged), (1, 0));
    assert!(model.expert_pack_file().is_none());
    let (model, merged) = load(
        Some(shard_map("zeroclaw-sharded-experts")),
        true,
        Some(pack("wohper-experts-pack", true)),
    )
    .unwrap();
    assert_eq!(merged, 1);
    assert_eq!(model.layers[0].experts.len(), 2);
    assert_eq!(model.expert_shard(0, 5).unwrap().path, "experts/layer0_expert5.zcblk");
    assert_eq!(model.expert_pack_file(), Some("/m/pack.bin"));
    assert_eq!(model.expert_pack_entry(0, 5).unwrap().payload_bytes, 4);
    assert!(matches!(
        load(Some(shard_map("?")), false, Some(pack("?", false))),
        Err(ModelFormatError::UnsupportedFormat(SideFile::ShardMap))
    ));
    assert!(matches!(
        load(None, false, Some(pack("?", false))),
        Err(ModelFormatError::UnsupportedFormat(SideFile::ExpertPack))
    ));
    assert!(matches!(
        load(None, false, Some(pack("wohper-experts-pack", false))),
        Err(ModelFormatError::MissingPackFile)
    ));
}

#[test]
fn errors_say_what_is_wrong() {
    let text = |bytes: Vec<u8>| String::from_utf8(bytes).unwrap();
    assert_eq!(
        text(ModelFormatError::InvalidMagic([90, 0, 7, 255, 1, 2, 3, 4]).message()),
        format!("invalid magic: {:?}", [90u8, 0, 7, 255, 1, 2, 3, 4])
    );
    assert_eq!(
        text(ModelFormatError::Unaligned { field: "dense_offset", value: 5 }.message()),
        "unaligned field dense_offset: value=5, required=2097152"
    );
    assert_eq!(
        text(ComputeError::ScratchTooSmall { required: 12, actual: 3 }.message()),
        "scratch buffer too small: required=12, actual=3"
    );
    assert_eq!(
        text(ComputeError::InvalidShape("hc_post sizes").message()),
        "invalid compute shape: hc_post sizes"
    );
    assert_eq!(
        text(ComputeError::UnsupportedQuantFormat(DiskQuantFormat::Int4Affine).message()),
        "unsupported quant format: Int4Affine"
    );
    assert_eq!(
        text(ExpertCacheError::HttpStatus { status: 404, url: b"http://h/x".to_vec() }.message()),
        "expert remote returned HTTP 404 for http://h/x"
    );
    assert_eq!(
        text(ExpertCacheError::MissingRemoteHook { layer_id: 3, expert_id: 4 }.message()),
        "expert 3/4 is missing locally and no remote fetch hook is configured"
    );
    assert_eq!(
        text(IndexerError::EmptyContext.message()),
        "GLM-DSA indexer context is empty"
    );
    assert_eq!(
        text(SchedulerError::DirectIo(DirectIoError::NoFreeBuffer).message()),
        "direct I/O error: no free fixed buffer"
    );
    assert_eq!(
        text(
            DirectIoError::BufferTooSmall { requested: 9, capacity: 4 }.message()
        ),
        "buffer capacity exceeded: requested=9, capacity=4"
    );
    assert_eq!(
        text(
            RowIndexError::RowOutOfRange { tensor: "h\u{e4}".to_string(), row: 7, rows: 5 }
                .message()
        ),
        "row 7 is outside tensor h\u{e4} rows=5"
    );
}

#[test]
fn descriptor_tables_are_read_record_by_record() {
    let mut raw = Vec::new();
    for value in [3u32, 0] {
        raw.extend_from_slice(&value.to_le_bytes());
    }
    for value in [ALIGN_2MB, ALIGN_2MB, 5, 6] {
        raw.extend_from_slice(&value.to_le_bytes());
    }
    for value in [1u32, 2, 4, 8, 2400, 0] {
        raw.extend_from_slice(&value.to_le_bytes());
    }
    raw.extend_from_slice(&99u64.to_le_bytes());
    let layers = decode_layers(&raw);
    assert_eq!(layers.len(), 1);
    assert_eq!(layers[0].layer_id, 3);
    assert_eq!(layers[0].first_expert_index, 4);
    assert_eq!(layers[0].num_experts, 8);
    assert_eq!(layers[0].checksum, 99);
    assert!(validate_layer(&layers[0]).is_ok());
    let mut bad = layers[0];
    bad.dense_disk_bytes = 7;
    assert!(matches!(validate_layer(&bad), Err(ModelFormatError::Unaligned { value: 7, .. })));

    let mut raw = Vec::new();
    for value in [3u32, 9] {
        raw.extend_from_slice(&value.to_le_bytes());
    }
    for value in [0u64, ALIGN_2MB, 5, 6] {
        raw.extend_from_slice(&value.to_le_bytes());
    }
    for value in [2400u32, 1] {
        raw.extend_from_slice(&value.to_le_bytes());
    }
    raw.extend_from_slice(&44u64.to_le_bytes());
    let experts = decode_experts(&raw);
    assert_eq!(experts.len(), 1);
    assert_eq!((experts[0].layer_id, experts[0].expert_id), (3, 9));
    assert_eq!(experts[0].checksum, 44);
    assert!(validate_expert(&experts[0]).is_ok());
}

#[test]
fn packs_list_where_experts_lie() {
    assert!(validate_pack_format("wohper-experts-pack").is_ok());
    assert!(validate_pack_format("zeroclaw-experts-pack").is_ok());
    assert!(matches!(
        validate_pack_format("other"),
        Err(ModelFormatError::UnsupportedFormat(SideFile::ExpertPack))
    ));
    let entry = ExpertPackEntryDisk {
        layer_id: 1,
        expert_id: 2,
        offset: ALIGN_2MB,
        disk_bytes: ALIGN_2MB,
        payload_bytes: 9,
    };
    let entries = read_pack_entries(&[entry]).unwrap();
    assert_eq!(entries.get(1, 2).unwrap().payload_bytes, 9);
    assert!(entries.get(2, 1).is_none());
    let mut moved = entry;
    moved.offset = 3;
    assert!(matches!(
        read_pack_entries(&[moved]),
        Err(ModelFormatError::Unaligned { value: 3, .. })
    ));
}

#[test]
fn pair_maps_keep_the_last_value() {
    let mut map = PairMap::new();
    map.insert(1, 2, 10u32);
    map.insert(2, 1, 20);
    map.insert(1, 2, 30);
    assert_eq!(map.len(), 2);
    assert_eq!(map.get(1, 2), Some(&30));
    assert_eq!(map.get(2, 1), Some(&20));
    assert!(!map.contains(1, 1));
}

#[test]
fn alignment_rounds_up_to_blocks() {
    assert!(is_aligned_2mb(0));
    assert!(!is_aligned_2mb(1));
    assert_eq!(align_up_2mb(1), ALIGN_2MB);
    assert_eq!(align_up_2mb(ALIGN_2MB), ALIGN_2MB);
}

fn float_bits(values: &[f32]) -> Vec<u32> {
    values.iter().map(|value| value.to_bits()).collect()
}

#[test]
fn decodes_bf16_row_values() {
    let mut raw = Vec::new();
    for value in [1.0f32, -2.0, 0.5] {
        raw.extend_from_slice(&((value.to_bits() >> 16) as u16).to_le_bytes());
    }
    let out: Vec<f32> =
        decode_bf16_into(&raw, 3).unwrap().into_iter().map(f32::from_bits).collect();
    assert_eq!(out, [1.0, -2.0, 0.5]);
    assert!(matches!(decode_bf16_into(&raw, 4), Err(RowIndexError::InvalidIndex(_))));
}

#[test]
fn topk_keeps_largest_scores() {
    let mut best: Vec<(u32, u32)> = Vec::new();
    push_topk(&mut best, 2, 1, 0.1f32.to_bits());
    push_topk(&mut best, 2, 2, 2.0f32.to_bits());
    push_topk(&mut best, 2, 3, 1.0f32.to_bits());
    let mut best: Vec<(u32, f32)> =
        best.into_iter().map(|(token, bits)| (token, f32::from_bits(bits))).collect();
    best.sort_by(|(_, left), (_, right)| right.total_cmp(left));
    assert_eq!(best, vec![(2, 2.0), (3, 1.0)]);
}

fn row_record(name: &str, rows: usize, width: usize) -> RowTensorRecord {
    RowTensorRecord {
        name: name.to_string(),
        dtype_code: DEEPSEEK_BF16_DTYPE,
        quant_format: DEEPSEEK_BF16_QUANT,
        role_code: 0,
        shape: vec![rows, width],
        absolute_data_offset: 1000,
        data_bytes: (rows * width * 2) as u64,
        row_count: Some(rows),
        row_width: Some(width),
        row_bytes: Some(width * 2),
    }
}

fn row_file(status: &str) -> RowTensorIndexFile {
    RowTensorIndexFile {
        format: "wohper-row-tensor-index".to_string(),
        version: 1,
        status: status.to_string(),
        core_file: "core.bin".to_string(),
        tensors: vec![
            row_record("embed.weight", 4, 3),
            row_record("head.weight", 5, 3),
            row_record("mtp.0.norm.weight", 1, 3),
        ],
    }
}

#[test]
fn row_indices_find_rows() {
    assert!(RowTensorIndex::load_for_model(None, Some("/m")).unwrap().is_none());
    assert!(matches!(
        RowTensorIndex::load(row_file("pending"), Some("/m")),
        Err(RowIndexError::NotReady(_))
    ));
    let index = RowTensorIndex::load(row_file("ready"), Some("/m")).unwrap();
    assert_eq!(index.core_path(), "/m/core.bin");
    assert_eq!(resolve_core_path(Some("/m"), "/abs/core.bin"), "/abs/core.bin");
    assert!(index.has_tensor("embed.weight"));
    assert!(!index.has_tensor("other"));
    assert_eq!(index.tensor_names_with_prefix("mtp."), vec!["mtp.0.norm.weight".to_string()]);
    let span = index.row_span("embed.weight", 2).unwrap().unwrap();
    assert_eq!((span.offset, span.bytes), (1012, 6));
    assert!(matches!(
        index.row_span("embed.weight", 4),
        Err(RowIndexError::RowOutOfRange { row: 4, rows: 4, .. })
    ));
    assert!(matches!(
        index.tensor_span("other"),
        Err(RowIndexError::MissingTensor(_))
    ));
    assert_eq!(index.tensor_span("head.weight").unwrap().bytes, 30);
    assert_eq!(index.lm_head_row_count(), Some(5));
    let (span, width) = index.bf16_row_span("embed.weight", 1, 3).unwrap().unwrap();
    assert_eq!((span.offset, span.bytes, width), (1006, 6, 3));
    assert!(matches!(
        index.bf16_row_span("embed.weight", 1, 2),
        Err(RowIndexError::OutputTooSmall { required: 3, actual: 2 })
    ));
}

#[test]
fn rows_that_are_no_bf16_rows_are_refused() {
    let mut file = row_file("ready");
    file.tensors[0].dtype_code = 1;
    let index = RowTensorIndex::load(file, None).unwrap();
    assert!(matches!(
        index.bf16_row_span("embed.weight", 0, 3),
        Err(RowIndexError::NotRowBf16(_))
    ));
}

#[test]
fn head_rows_are_read_in_chunks_that_join() {
    let index = RowTensorIndex::load(row_file("ready"), None).unwrap();
    let tensor = index.head_tensor().unwrap();
    let head = plan_head_rows(tensor, 3, 2).unwrap();
    assert_eq!(head.row_count, 5);
    assert_eq!(head_bytes(head), Some(30));
    let mut row = 0;
    let mut next = 1000;
    let mut best: Vec<(u32, u32)> = Vec::new();
    while row < head.row_count {
        let chunk = head_chunk(tensor, head, row).unwrap();
        assert_eq!(chunk.offset, next);
        assert!(chunk.rows > 0);
        let scores: Vec<f32> =
            (0..chunk.rows).map(|local| ((row + local) % 3) as f32).collect();
        offer_rows(&mut best, 2, row, &float_bits(&scores));
        next += chunk.bytes as u64;
        row += chunk.rows;
    }
    assert_eq!(next, 1030);
    let mut tokens: Vec<u32> = best.iter().map(|(token, _)| *token).collect();
    tokens.sort();
    assert_eq!(tokens[0], 1);
    assert!(best.iter().any(|(token, bits)| *token == 2 && *bits == 2.0f32.to_bits()));
}

fn positions(
    query: &[f32],
    keys: &[f32],
    weights: &[f32],
    context_len: usize,
    causal_len: usize,
    config: IndexerConfig,
) -> Result<Vec<usize>, IndexerError> {
    let plan = plan_topk_positions(
        query.len(),
        keys.len(),
        weights.len(),
        context_len,
        causal_len,
        config,
    )?;
    let scale = 1.0 / (config.head_dim as f32).sqrt();
    let mut scores = Vec::new();
    if plan.keep < plan.visible {
        for pos in 0..plan.visible {
            let key = &keys[pos * config.head_dim..(pos + 1) * config.head_dim];
            let mut score = 0.0f32;
            for head in 0..config.n_heads {
                let part = &query[head * config.head_dim..(head + 1) * config.head_dim];
                let dot: f32 = part.iter().zip(key).map(|(q, k)| q * k).sum();
                score += (dot * scale).max(0.0) * weights[head];
            }
            scores.push(score.to_bits());
        }
    }
    Ok(select_topk_positions(plan, &scores))
}

#[test]
fn short_context_returns_full_causal_prefix() {
    let config = IndexerConfig { n_heads: 1, head_dim: 2, top_k: 4 };
    let selected =
        positions(&[1.0, 0.0], &[1.0, 0.0, 0.0, 1.0, 2.0, 0.0], &[1.0], 3, 3, config).unwrap();

    assert_eq!(selected, vec![0, 1, 2]);
}

#[test]
fn long_context_selects_highest_relu_scores() {
    let config = IndexerConfig { n_heads: 1, head_dim: 2, top_k: 2 };
    let selected = positions(
        &[1.0, 0.0],
        &[1.0, 0.0, -5.0, 0.0, 3.0, 0.0, 2.0, 0.0],
        &[1.0],
        4,
        4,
        config,
    )
    .unwrap();

    assert_eq!(selected, vec![2, 3]);
}

#[test]
fn causal_len_hides_future_positions() {
    let config = IndexerConfig { n_heads: 1, head_dim: 1, top_k: 1 };
    let selected = positions(&[1.0], &[1.0, 10.0, 100.0], &[1.0], 3, 2, config).unwrap();

    assert_eq!(selected, vec![1]);
}

#[test]
fn shared_indexer_reuses_previous_full_layer_positions() {
    let selected = reuse_shared_indexer_positions(&[7, 3, 1]);
    assert_eq!(selected, vec![7, 3, 1]);
}

#[test]
fn indexer_inputs_are_checked() {
    let config = IndexerConfig { n_heads: 1, head_dim: 2, top_k: 2 };
    assert_eq!(
        positions(&[1.0, 0.0], &[], &[1.0], 0, 0, config),
        Err(IndexerError::EmptyContext)
    );
    assert!(matches!(
        positions(&[1.0], &[1.0, 0.0], &[1.0], 1, 1, config),
        Err(IndexerError::Shape(_))
    ));
    assert_eq!(IndexerConfig::default().top_k, 2048);
}

fn cache() -> ExpertLruCache {
    ExpertLruCache::new(ExpertCacheConfig {
        cache_dir: b"/tmp/cache".to_vec(),
        max_bytes: 1 << 20,
        remote_endpoint: None,
    })
}

#[test]
fn expert_cache_replaces_truncated_local_file() {
    let mut cache = cache();
    assert_eq!(cache.cache_path(34, 1), b"/tmp/cache/layer34_expert1.zcblk".to_vec());
    // A file of 1024 bytes stands where 4096 are expected, and there is a source.
    assert_eq!(
        cache.ensure_expert(Some(1024), Some(4096), true),
        ExpertAction::Fill { remove: true, copy: true }
    );
    assert_eq!(cache.ensure_expert(Some(4096), Some(4096), true), ExpertAction::UseCached);
    cache.touch(34, 1, 4096, 5);
    assert_eq!(cache.total_bytes(), 4096);
}

#[test]
fn expert_cache_drops_the_oldest_until_it_fits() {
    let mut cache = ExpertLruCache::new(ExpertCacheConfig {
        cache_dir: b"cache".to_vec(),
        max_bytes: 100,
        remote_endpoint: None,
    });
    cache.touch(0, 1, 60, 30);
    cache.touch(0, 2, 60, 10);
    cache.touch(0, 3, 60, 20);
    let mut dropped = Vec::new();
    while let Some(entry) = cache.next_victim() {
        dropped.push(entry.expert_id);
        cache.evict(entry.layer_id, entry.expert_id);
    }
    assert_eq!(dropped, vec![2, 3]);
    assert_eq!((cache.len(), cache.total_bytes()), (1, 60));
    cache.touch(0, 1, 50, 40);
    assert_eq!((cache.len(), cache.total_bytes()), (1, 50));
}

#[test]
fn experts_are_asked_for_over_http() {
    assert_eq!(expert_file_name(3, 12), b"layer3_expert12.zcblk".to_vec());
    assert!(matches!(
        cache().fetch_remote(1, 2),
        Err(ExpertCacheError::MissingRemoteHook { layer_id: 1, expert_id: 2 })
    ));
    let remote = ExpertLruCache::new(ExpertCacheConfig {
        cache_dir: Vec::new(),
        max_bytes: 1,
        remote_endpoint: Some(b"http://host:8080/base/".to_vec()),
    });
    let url = remote.fetch_remote(1, 2).unwrap();
    let parsed = parse_http_url(&url).unwrap();
    assert_eq!(parsed.host, b"host".to_vec());
    assert_eq!(parsed.port, 8080);
    assert!(parsed.path.starts_with(b"/base/"));
    let request = http_request(&parsed);
    assert!(request.starts_with(b"GET /base/"));
    assert!(request.ends_with(b"\r\n\r\n"));
    assert_eq!(parse_http_url(b"http://host").unwrap().port, 80);
    assert!(matches!(
        parse_http_url(b"ftp://host/x"),
        Err(ExpertCacheError::InvalidRemoteEndpoint(_))
    ));
    assert_eq!(parse_status_line("HTTP/1.1 200 OK\r\n").unwrap(), 200);
    assert!(matches!(
        parse_status_line("nothing"),
        Err(ExpertCacheError::InvalidHttpResponse("missing status line"))
    ));
    assert!(ends_head(Some(b"\r\n")).unwrap());
    assert!(!ends_head(Some(b"Server: x\r\n")).unwrap());
    assert!(matches!(
        ends_head(None),
        Err(ExpertCacheError::InvalidHttpResponse("missing header terminator"))
    ));
    assert!(check_status(200, b"u").is_ok());
    assert!(matches!(
        check_status(404, b"u"),
        Err(ExpertCacheError::HttpStatus { status: 404, .. })
    ));
    assert_eq!((now_ms(Some(7)), now_ms(None)), (7, 0));
}

#[test]
fn profiles_are_printed_and_start_again() {
    let mut counters =
        Phase1Counters { q_ns: 0, kv_ns: 2_500_000, compressor_ns: 0, window_ns: 0, o_ns: 0 };
    add(&mut counters.q_ns, 12_345_678);
    assert_eq!(
        dump_and_reset(&mut counters),
        b"q_ms=12 kv_ms=2 compressor_ms=0 window_ms=0 o_ms=0".to_vec()
    );
    assert_eq!(counters.q_ns, 0);
}

fn span(disk_bytes: u64) -> BlockSpan {
    BlockSpan {
        kind: BlockKind::Expert,
        layer_id: 1,
        expert_id: 2,
        file_offset: ALIGN_2MB,
        disk_bytes,
        payload_bytes: 5,
    }
}

#[test]
fn buffers_go_round_and_come_back() {
    assert!(matches!(BufferPool::new(0, 10), Err(DirectIoError::InvalidBufferCount(0))));
    let mut pool = BufferPool::new(2, 4096).unwrap();
    assert_eq!((pool.buffer_count(), pool.capacity(), pool.available_buffers()), (2, 4096, 2));
    let first = pool.begin_read(0, false, span(4096)).unwrap();
    pool.queued();
    let second = pool.begin_load(span(4096)).unwrap();
    assert_ne!(first.id, second.id);
    assert_ne!(first.fixed_buffer_index, second.fixed_buffer_index);
    assert_eq!(pool.available_buffers(), 0);
    assert_eq!(pool.begin_read(0, false, span(4096)), Err(DirectIoError::NoFreeBuffer));
    assert_eq!(pool.in_flight(), 1);
    pool.complete(first, 4096);
    assert_eq!(pool.in_flight(), 0);
    pool.release_buffer(first.fixed_buffer_index).unwrap();
    assert_eq!(pool.available_buffers(), 1);
    assert_eq!(
        pool.finish_load(second.fixed_buffer_index, 4096, 100),
        Err(DirectIoError::ShortExternalRead { requested: 4096, actual: 100 })
    );
    assert_eq!(pool.release_buffer(9), Err(DirectIoError::InvalidBufferIndex(9)));
    assert!(matches!(
        pool.begin_read(0, false, span(9000)),
        Err(DirectIoError::BufferTooSmall { requested: 9000, capacity: 4096 })
    ));
    assert_eq!(pool.begin_read(1, false, span(4096)), Err(DirectIoError::PackNotRegistered));
    let third = pool.begin_read(1, true, span(4096)).unwrap();
    assert_eq!(pool.refused(third.fixed_buffer_index), DirectIoError::SubmissionQueueFull);
    assert_eq!(external_read_len(5000, 100_000, true), 8192);
    assert_eq!(external_read_len(5000, 100_000, false), 5000);
    assert!(runtime_buffer_count(1 << 20, 1000) >= 1);
}

fn manifest() -> ModelManifest {
    let mut inner = listed_expert(0, 0, 1);
    inner.disk_offset = 4 * ALIGN_2MB;
    let layers = vec![
        layer_block(0, LAYER_BLOCK_COMPUTE, vec![inner, listed_expert(0, 1, 2), listed_expert(0, 2, 3)]),
        layer_block(1, LAYER_BLOCK_COMPUTE, Vec::new()),
    ];
    let mut layers_with = layers;
    let (shards, _) = apply_shard_map(
        &mut layers_with,
        "wohper-sharded-experts",
        &[catalog_entry(0, 1, 2, 16), catalog_entry(0, 2, 3, 16)],
        false,
    )
    .unwrap();
    let entries = read_pack_entries(&[ExpertPackEntryDisk {
        layer_id: 0,
        expert_id: 2,
        offset: 2 * ALIGN_2MB,
        disk_bytes: ALIGN_2MB,
        payload_bytes: 16,
    }])
    .unwrap();
    ModelManifest {
        header: header(2),
        layers: layers_with,
        base_dir: "/m".to_string(),
        expert_shards: shards,
        expert_pack: Some(ExpertPackInfo { file: "pack.bin".to_string(), entries }),
    }
}

fn scheduler(buffers: usize) -> MoEIoScheduler {
    MoEIoScheduler::new(BufferPool::new(buffers, ALIGN_2MB as usize).unwrap(), manifest())
}

fn routes(experts: &[u32]) -> Vec<ExpertRoute> {
    experts.iter().map(|&expert_id| ExpertRoute { expert_id, score_bits: 0 }).collect()
}

#[test]
fn manifests_tell_where_experts_are() {
    let manifest = manifest();
    assert_eq!(manifest.expert_pack_file(), Some("pack.bin"));
    assert_eq!(manifest.expert_pack_entry(0, 2).unwrap().offset, 2 * ALIGN_2MB);
    assert!(manifest.expert_shard(0, 0).is_none());
    assert!(manifest.is_streaming_expert(0, 1));
    assert!(!manifest.is_streaming_expert(0, 0));
}

#[test]
fn rounds_drain_the_queue_and_settle() {
    let mut scheduler = scheduler(2);
    let bytes = scheduler.enqueue_layer_io_plan(0, &routes(&[0, 1, 2])).unwrap();
    assert_eq!(bytes, 4 * ALIGN_2MB);
    assert_eq!(scheduler.pending_len(), 4);
    assert_eq!(
        scheduler.enqueue_expert_read(0, 9),
        Err(SchedulerError::InvalidExpert { layer_id: 0, expert_id: 9 })
    );

    let mut round = SubmitRound::new(8);
    let mut rings = Vec::new();
    while let Ok(Some(ticket)) = scheduler.next_ring_read(&mut round, false) {
        scheduler.ring_answered(&mut round, &ticket, true);
        rings.push(ticket);
    }
    assert_eq!(rings.len(), 2);
    assert_eq!(scheduler.in_flight(), 2);
    assert_eq!(rings[0].kind, BlockKind::Dense);
    for ticket in rings {
        scheduler.read_completed(ticket, ticket.disk_bytes as i32);
    }
    let mut ready: Vec<ReadyBlock> = Vec::new();
    while let Some(block) = scheduler.pop_ready() {
        ready.push(block);
    }
    assert_eq!(ready.len(), 2);
    for block in &ready {
        scheduler.release_ready_block(block).unwrap();
    }
    assert_eq!(scheduler.available_buffers(), 2);
    assert_eq!(scheduler.submitted_reads() as usize, round.submitted());

    let waiting =
        scheduler.pending_len() + round.queue_len(Batch::Pack) + round.queue_len(Batch::External);
    assert_eq!(waiting, 2);
    scheduler.requeue(&mut round, Batch::Pack);
    scheduler.requeue(&mut round, Batch::External);
    assert_eq!(scheduler.pending_len(), 2);

    let mut round = SubmitRound::new(8);
    while let Ok(Some(ticket)) = scheduler.next_ring_read(&mut round, false) {
        scheduler.ring_answered(&mut round, &ticket, true);
    }
    let mut loaded = 0;
    for batch in [Batch::Pack, Batch::External] {
        let count = scheduler.take_chunk(&mut round, batch);
        let begun = scheduler.begin_chunk(&round, batch, true);
        assert_eq!(begun.len(), count);
        let mut outcomes = Vec::new();
        for ticket in begun {
            let ticket = ticket.unwrap();
            scheduler.finish_load(&ticket, ALIGN_2MB, ALIGN_2MB as usize).unwrap();
            outcomes.push(LoadOutcome::Loaded(ticket));
            loaded += 1;
        }
        assert_eq!(scheduler.finish_chunk(&mut round, &outcomes), Ok(false));
    }
    assert_eq!(loaded, 2);
    assert_eq!(scheduler.pending_len(), 0);
    assert!(scheduler.pop_ready().is_some());
}

#[test]
fn reads_of_a_missing_pack_take_no_buffer() {
    let mut scheduler = scheduler(2);
    scheduler.enqueue_expert_read(0, 2).unwrap();
    let mut round = SubmitRound::new(8);
    assert_eq!(scheduler.next_ring_read(&mut round, false), Ok(None));
    assert_eq!(round.queue_len(Batch::Pack), 1);
    assert_eq!(scheduler.take_chunk(&mut round, Batch::Pack), 1);
    assert_eq!(round.loading()[0].expert_id, 2);
    let begun = scheduler.begin_chunk(&round, Batch::Pack, false);
    assert_eq!(begun, vec![Err(DirectIoError::PackNotOpen)]);
    assert_eq!(scheduler.available_buffers(), 2);
    assert_eq!(DirectIoError::PackNotOpen.message(), b"I/O error: expert pack file not open");
    assert_eq!(scheduler.finish_chunk(&mut round, &[LoadOutcome::Failed]), Err(0));
    assert_eq!((scheduler.pending_len(), scheduler.available_buffers()), (0, 2));
}

#[test]
fn rounds_neither_lose_nor_double_reads() {
    let mut scheduler = scheduler(2);
    scheduler.enqueue_layer_io_plan(0, &routes(&[0, 1, 2])).unwrap();
    scheduler.enqueue_expert_read(0, 2).unwrap();
    let all = scheduler.pending_len();
    let mut round = SubmitRound::new(9);
    let mut queued = true;
    while let Ok(Some(ticket)) = scheduler.next_ring_read(&mut round, true) {
        scheduler.ring_answered(&mut round, &ticket, queued);
        queued = false;
    }
    let count = |scheduler: &MoEIoScheduler, round: &SubmitRound| {
        scheduler.pending_len()
            + round.submitted()
            + round.queue_len(Batch::Pack)
            + round.queue_len(Batch::External)
            + round.loading().len()
    };
    assert_eq!(count(&scheduler, &round), all);
    assert_eq!(round.submitted(), 1);
    for batch in [Batch::Pack, Batch::External] {
        scheduler.take_chunk(&mut round, batch);
        assert_eq!(count(&scheduler, &round), all);
        let begun = scheduler.begin_chunk(&round, batch, true);
        let outcomes: Vec<LoadOutcome> = begun
            .into_iter()
            .map(|ticket| match ticket {
                Ok(ticket) => LoadOutcome::Loaded(ticket),
                Err(_) => LoadOutcome::NoFreeBuffer,
            })
            .collect();
        assert!(scheduler.finish_chunk(&mut round, &outcomes).is_ok());
        assert_eq!(count(&scheduler, &round), all);
        scheduler.requeue(&mut round, batch);
        assert_eq!(count(&scheduler, &round), all);
    }
    assert_eq!(scheduler.submitted_reads() as usize, round.submitted());
}

#[test]
fn single_reads_count_once() {
    let mut scheduler = scheduler(1);
    let ticket = scheduler.begin_dense_read(1).unwrap();
    scheduler.read_queued();
    scheduler.count_submitted();
    assert_eq!(scheduler.submitted_reads(), 1);
    assert_eq!(
        scheduler.begin_expert_read(0, 0),
        Err(SchedulerError::DirectIo(DirectIoError::NoFreeBuffer))
    );
    scheduler.read_completed(ticket, -5);
    let block = scheduler.pop_ready().unwrap();
    assert_eq!(block.result, -5);
    scheduler.release_ready_block(&block).unwrap();
    scheduler.enqueue_dense_read(0);
    scheduler.enqueue_selected_experts(0, &routes(&[1])).unwrap();
    assert_eq!(scheduler.pending_len(), 2);
    assert_eq!(scheduler.layer(1).layer_id, 1);
    assert_eq!(scheduler.manifest().layers.len(), 2);
    assert_eq!(scheduler.prefetch_layer(5, &routes(&[1])), None);
}

fn args(words: &[&str]) -> Vec<String> {
    words.iter().map(|word| word.to_string()).collect()
}

#[test]
fn arguments_are_taken_apart() {
    let flags = [
        Flag { name: "--depth", kind: ArgKind::Number(50), required: false },
        Flag { name: "--model", kind: ArgKind::Text, required: true },
        Flag { name: "--addr", kind: ArgKind::Form, required: false },
    ];
    let words = args(&["--model", "5", "--depth"]);
    assert_eq!(next_arg(&words, 0, &flags), ArgStep::Value(1));
    assert_eq!(next_arg(&words, 2, &flags), ArgStep::Missing(0));
    assert_eq!(next_arg(&words, 3, &flags), ArgStep::Done);
    assert_eq!(next_arg(&args(&["--help"]), 0, &flags), ArgStep::Help);
    assert_eq!(next_arg(&args(&["--what"]), 0, &flags), ArgStep::Unknown);
    let parsed = |words: &[&str]| {
        let words = args(words);
        let formed: Vec<bool> = words.iter().map(|word| word.contains(':')).collect();
        parse_args(&words, &formed, &flags)
    };
    assert_eq!(
        parsed(&["--depth", "7", "--model", "m", "--depth", "9"]),
        Ok(vec![Some(5), Some(3), None])
    );
    assert_eq!(parsed(&["--model", "--help"]), Ok(vec![None, Some(1), None]));
    assert_eq!(parsed(&["--model", "m", "--addr", "a:1"]), Ok(vec![None, Some(1), Some(3)]));
    assert_eq!(parsed(&["--addr", "a"]), Err(ArgError::Invalid(1)));
    assert_eq!(parsed(&["--depth", "51"]), Err(ArgError::Invalid(1)));
    assert_eq!(parsed(&["--model", "m", "-h", "--what"]), Err(ArgError::Help));
    assert_eq!(parsed(&["--model", "m", "--what"]), Err(ArgError::Unknown(2)));
    assert_eq!(parsed(&["--depth"]), Err(ArgError::Missing(0)));
    assert_eq!(parsed(&["--depth", "1"]), Err(ArgError::Required(1)));
    assert_eq!(number_or(&args(&["--n", "7"]), Some(1), 100, 3), 7);
    assert_eq!(number_or(&[], None, 100, 3), 3);
    assert_eq!(number_arg("+12", 100), Some(12));
    assert_eq!(number_arg("12", 100), Some(12));
    assert_eq!(number_arg("120", 100), None);
    assert_eq!(number_arg("1x", 100), None);
    assert_eq!(arg_usize(&args(&["--n", "7"]), "--n", 3), 7);
    assert_eq!(arg_usize(&args(&["--n"]), "--n", 3), 3);
}

#[test]
fn made_up_inputs_are_as_laid_out() {
    let mut bytes = [0u8; 4];
    fill_packed(3, &mut bytes);
    let mut again = [0u8; 4];
    fill_packed(3, &mut again);
    assert_eq!(bytes, again);
    let shape = plan_bench(64, 32, 2).unwrap();
    assert_eq!(shape.gate_bytes, 32 * 32);
    assert_eq!(shape.down_bytes, 64 * 16);
    assert!(matches!(
        plan_bench(64, 33, 2),
        Err(BenchShapeError::Shape) | Err(BenchShapeError::DownScales { .. })
    ));
    let routes = deterministic_routes(2, 1, 8, 4);
    assert_eq!(routes.len(), 4);
    for (index, route) in routes.iter().enumerate() {
        assert!(route.expert_id < 8);
        assert!(routes[..index].iter().all(|other| other.expert_id != route.expert_id));
    }
    assert_eq!(plan_place(7, 3), (2, 1));
    assert!(max_request_window(4, 6) >= 1);
    let mut seed = 1u64;
    for _ in 0..100 {
        seed = next_made_up(seed);
        assert_ne!(seed, 0);
    }
}

#[test]
fn measurements_are_read() {
    let (mut reads, mut bytes) = (0u64, 0u64);
    count_ready(&mut reads, &mut bytes, 100);
    count_ready(&mut reads, &mut bytes, -1);
    assert_eq!((reads, bytes), (2, 100));
    assert_eq!(rss_kb("Name:\tx\nVmRSS:\t  1234 kB\nThreads: 1\n"), Some(1234));
    assert_eq!(rss_kb("Name:\tx\n"), None);
    assert_eq!(check_fetched(ALIGN_2MB, ALIGN_2MB, &QUANT_BLOCK_MAGIC), Ok(()));
    assert_eq!(
        check_fetched(5, ALIGN_2MB, &QUANT_BLOCK_MAGIC),
        Err(FetchedError::Size { actual: 5, expected: ALIGN_2MB })
    );
    assert_eq!(check_fetched(5, 5, &QUANT_BLOCK_MAGIC), Err(FetchedError::Unaligned));
    assert_eq!(check_fetched(ALIGN_2MB, ALIGN_2MB, b"other"), Err(FetchedError::Magic));
}

#[test]
fn settings_have_their_words() {
    assert!(attends_one_by_one(Some("0"), false, false));
    assert!(!attends_one_by_one(Some("1"), false, false));
    assert!(!attends_one_by_one(None, false, false));
    assert!(attends_one_by_one(None, true, false));
    assert!(attends_one_by_one(Some("1"), false, true));
    assert!(!verbose_logging(None));
    assert!(verbose_logging(Some("1")));
    assert!(!verbose_logging(Some("yes")));
    assert!(sidecar_expert_merge_enabled(Some("all")));
    assert!(sidecar_expert_merge_enabled(Some("1")));
    assert!(!sidecar_expert_merge_enabled(Some("0")));
    assert!(!sidecar_expert_merge_enabled(None));
    assert!(lm_head_cache_enabled(Some(" 1\n")));
    assert!(!lm_head_cache_enabled(Some("0")));
    assert!(!lm_head_cache_enabled(None));
    assert_eq!(configured_threads(Some("6")), Some(6));
    assert_eq!(configured_threads(Some("six")), None);
    assert_eq!(configured_threads(None), None);
}
