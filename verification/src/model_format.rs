//! On-disk model format: the headers and tables of a model file, the shards of
//! its experts, and the pack that may hold them all.

use crate::bytes::{bytes_equal, load_u32, load_u64};
use crate::compute::quant_block::read_le_bytes;
use crate::order::rank_descending;
use crate::pair_map::PairMap;
use crate::{is_aligned_2mb, ALIGN_2MB};
use vstd::prelude::*;

verus! {

use crate::bytes::{le32, le64, lemma_u32_at, lemma_u64_at, u32_at, u64_at};
use crate::compute::quant_block::magic_of;
use crate::order::{law_ranked_sorts, ranked};
use vstd::string::StringSliceAdditionalSpecFns;
use vstd::utf8::encode_utf8;

pub const MODEL_MAGIC: [u8; 8] = [90, 67, 73, 78, 70, 48, 49, 0];
pub const QUANT_BLOCK_MAGIC: [u8; 8] = [90, 67, 66, 76, 75, 48, 49, 0];
pub const FORMAT_VERSION: u32 = 1;
pub const QUANT_BLOCK_VERSION: u32 = 1;
pub const QUANT_BLOCK_HEADER_SIZE: usize = 40;
pub const QUANT_TENSOR_RECORD_SIZE: usize = 52;
pub const LAYER_BLOCK_COMPUTE: u32 = 0;
pub const LAYER_BLOCK_GLOBAL_AUX: u32 = 1;
pub const MODEL_FAMILY_FAKE: u32 = 0;
pub const MODEL_FAMILY_GLM52: u32 = 1;
pub const MODEL_FAMILY_DEEPSEEK_V4_FLASH: u32 = 2;

/// Bytes of the header at the start of a model file.
pub const ENGINE_HEADER_SIZE: usize = 128;
/// Bytes of the header of the manifest.
pub const MANIFEST_HEADER_SIZE: usize = 40;
/// Bytes of a layer in the manifest.
pub const LAYER_DESC_SIZE: usize = 72;
/// Bytes of an expert in the manifest.
pub const EXPERT_DESC_SIZE: usize = 56;

/// The name of a model family.
pub open spec fn family_name(model_family: u32) -> &'static str {
    if model_family == MODEL_FAMILY_FAKE {
        "fake"
    } else if model_family == MODEL_FAMILY_GLM52 {
        "glm52"
    } else if model_family == MODEL_FAMILY_DEEPSEEK_V4_FLASH {
        "deepseek_v4_flash"
    } else {
        "unknown"
    }
}

/// The name of a model family.
pub fn model_family_name(model_family: u32) -> (name: &'static str)
    ensures
        name == family_name(model_family),
{
    if model_family == MODEL_FAMILY_FAKE {
        "fake"
    } else if model_family == MODEL_FAMILY_GLM52 {
        "glm52"
    } else if model_family == MODEL_FAMILY_DEEPSEEK_V4_FLASH {
        "deepseek_v4_flash"
    } else {
        "unknown"
    }
}

/// Which side file has a format that is not known.
#[derive(Clone, Copy, Debug, PartialEq, Eq, Structural)]
pub enum SideFile {
    ShardMap,
    ExpertPack,
}

/// Why a model file or one of its side files was refused.
#[derive(Clone, Copy, Debug)]
pub enum ModelFormatError {
    InvalidMagic([u8; 8]),
    UnsupportedVersion(u32),
    Unaligned { field: &'static str, value: u64 },
    TruncatedManifest,
    LayerCountMismatch { header: u32, manifest: u32 },
    InvalidExpertTable { layer_id: u32 },
    UnsupportedFormat(SideFile),
    MissingPackFile,
}

/// The header at the start of a model file.
#[derive(Clone, Copy, Debug)]
pub struct EngineHeader {
    pub magic: [u8; 8],
    pub version: u32,
    pub endian: u32,
    pub file_size: u64,
    pub manifest_offset: u64,
    pub manifest_size: u64,
    pub tokenizer_offset: u64,
    pub tokenizer_size: u64,
    pub router_metadata_offset: u64,
    pub router_metadata_size: u64,
    pub model_family: u32,
    pub architecture: u32,
    pub num_layers: u32,
    pub hidden_size: u32,
    pub num_attention_heads: u32,
    pub num_kv_heads: u32,
    pub experts_per_layer: u32,
    pub active_experts_per_token: u32,
    pub block_alignment: u32,
    pub disk_quant_format: u32,
    pub manifest_checksum: u64,
    pub file_checksum: u64,
}

/// The header that bytes hold.
pub open spec fn engine_header_of(s: Seq<u8>) -> EngineHeader {
    EngineHeader {
        magic: magic_of(s),
        version: u32_at(s, 8),
        endian: u32_at(s, 12),
        file_size: u64_at(s, 16),
        manifest_offset: u64_at(s, 24),
        manifest_size: u64_at(s, 32),
        tokenizer_offset: u64_at(s, 40),
        tokenizer_size: u64_at(s, 48),
        router_metadata_offset: u64_at(s, 56),
        router_metadata_size: u64_at(s, 64),
        model_family: u32_at(s, 72),
        architecture: u32_at(s, 76),
        num_layers: u32_at(s, 80),
        hidden_size: u32_at(s, 84),
        num_attention_heads: u32_at(s, 88),
        num_kv_heads: u32_at(s, 92),
        experts_per_layer: u32_at(s, 96),
        active_experts_per_token: u32_at(s, 100),
        block_alignment: u32_at(s, 104),
        disk_quant_format: u32_at(s, 108),
        manifest_checksum: u64_at(s, 112),
        file_checksum: u64_at(s, 120),
    }
}

/// Reads the header at the start of a model file; nothing where the bytes are
/// too few.
pub fn decode_engine_header(bytes: &[u8]) -> (header: Option<EngineHeader>)
    ensures
        match header {
            Some(header) => bytes@.len() >= ENGINE_HEADER_SIZE && header == engine_header_of(
                bytes@,
            ),
            None => bytes@.len() < ENGINE_HEADER_SIZE,
        },
{
    if bytes.len() < ENGINE_HEADER_SIZE {
        return None;
    }
    let magic: [u8; 8] = match read_le_bytes::<8>(bytes, 0, "magic") {
        Ok(magic) => magic,
        Err(_) => return None,
    };
    proof {
        assert(magic_of(bytes@)@ == magic@);
        assert(magic_of(bytes@) =~= magic);
    }
    Some(
        EngineHeader {
            magic,
            version: load_u32(bytes, 8),
            endian: load_u32(bytes, 12),
            file_size: load_u64(bytes, 16),
            manifest_offset: load_u64(bytes, 24),
            manifest_size: load_u64(bytes, 32),
            tokenizer_offset: load_u64(bytes, 40),
            tokenizer_size: load_u64(bytes, 48),
            router_metadata_offset: load_u64(bytes, 56),
            router_metadata_size: load_u64(bytes, 64),
            model_family: load_u32(bytes, 72),
            architecture: load_u32(bytes, 76),
            num_layers: load_u32(bytes, 80),
            hidden_size: load_u32(bytes, 84),
            num_attention_heads: load_u32(bytes, 88),
            num_kv_heads: load_u32(bytes, 92),
            experts_per_layer: load_u32(bytes, 96),
            active_experts_per_token: load_u32(bytes, 100),
            block_alignment: load_u32(bytes, 104),
            disk_quant_format: load_u32(bytes, 108),
            manifest_checksum: load_u64(bytes, 112),
            file_checksum: load_u64(bytes, 120),
        },
    )
}

/// The header of the manifest.
#[derive(Clone, Copy, Debug, PartialEq, Eq, Structural)]
pub struct ManifestHeader {
    pub layer_count: u32,
    pub expert_count: u32,
    pub tensor_count: u32,
    pub reserved: u32,
    pub layer_desc_offset: u64,
    pub expert_desc_offset: u64,
    pub tensor_desc_offset: u64,
}

/// The header of the manifest that bytes hold.
pub open spec fn manifest_header_of(s: Seq<u8>) -> ManifestHeader {
    ManifestHeader {
        layer_count: u32_at(s, 0),
        expert_count: u32_at(s, 4),
        tensor_count: u32_at(s, 8),
        reserved: u32_at(s, 12),
        layer_desc_offset: u64_at(s, 16),
        expert_desc_offset: u64_at(s, 24),
        tensor_desc_offset: u64_at(s, 32),
    }
}

/// Reads the header of the manifest; nothing where the bytes are too few.
pub fn decode_manifest_header(bytes: &[u8]) -> (header: Option<ManifestHeader>)
    ensures
        match header {
            Some(header) => bytes@.len() >= MANIFEST_HEADER_SIZE && header == manifest_header_of(
                bytes@,
            ),
            None => bytes@.len() < MANIFEST_HEADER_SIZE,
        },
{
    if bytes.len() < MANIFEST_HEADER_SIZE {
        return None;
    }
    Some(
        ManifestHeader {
            layer_count: load_u32(bytes, 0),
            expert_count: load_u32(bytes, 4),
            tensor_count: load_u32(bytes, 8),
            reserved: load_u32(bytes, 12),
            layer_desc_offset: load_u64(bytes, 16),
            expert_desc_offset: load_u64(bytes, 24),
            tensor_desc_offset: load_u64(bytes, 32),
        },
    )
}

/// A layer in the manifest.
#[derive(Clone, Copy, Debug, PartialEq, Eq, Structural)]
pub struct LayerBlockDescDisk {
    pub layer_id: u32,
    pub flags: u32,
    pub dense_offset: u64,
    pub dense_disk_bytes: u64,
    pub dense_payload_bytes: u64,
    pub dense_dequant_bytes: u64,
    pub tensor_count: u32,
    pub first_tensor_index: u32,
    pub first_expert_index: u32,
    pub num_experts: u32,
    pub quant_format: u32,
    pub checksum_kind: u32,
    pub checksum: u64,
}

/// The layer of the manifest that stands at `at`.
pub open spec fn layer_desc_at(s: Seq<u8>, at: int) -> LayerBlockDescDisk {
    LayerBlockDescDisk {
        layer_id: u32_at(s, at),
        flags: u32_at(s, at + 4),
        dense_offset: u64_at(s, at + 8),
        dense_disk_bytes: u64_at(s, at + 16),
        dense_payload_bytes: u64_at(s, at + 24),
        dense_dequant_bytes: u64_at(s, at + 32),
        tensor_count: u32_at(s, at + 40),
        first_tensor_index: u32_at(s, at + 44),
        first_expert_index: u32_at(s, at + 48),
        num_experts: u32_at(s, at + 52),
        quant_format: u32_at(s, at + 56),
        checksum_kind: u32_at(s, at + 60),
        checksum: u64_at(s, at + 64),
    }
}

/// An expert in the manifest.
#[derive(Clone, Copy, Debug, PartialEq, Eq, Structural)]
pub struct ExpertBlockDescDisk {
    pub layer_id: u32,
    pub expert_id: u32,
    pub disk_offset: u64,
    pub disk_bytes: u64,
    pub payload_bytes: u64,
    pub dequant_bytes: u64,
    pub quant_format: u32,
    pub route_rank_hint: u32,
    pub checksum: u64,
}

/// The expert of the manifest that stands at `at`.
pub open spec fn expert_desc_at(s: Seq<u8>, at: int) -> ExpertBlockDescDisk {
    ExpertBlockDescDisk {
        layer_id: u32_at(s, at),
        expert_id: u32_at(s, at + 4),
        disk_offset: u64_at(s, at + 8),
        disk_bytes: u64_at(s, at + 16),
        payload_bytes: u64_at(s, at + 24),
        dequant_bytes: u64_at(s, at + 32),
        quant_format: u32_at(s, at + 40),
        route_rank_hint: u32_at(s, at + 44),
        checksum: u64_at(s, at + 48),
    }
}

/// Reads the layers of a manifest: as many as the bytes hold in full.
pub fn decode_layers(bytes: &[u8]) -> (layers: Vec<LayerBlockDescDisk>)
    ensures
        layers@ == Seq::new(
            bytes@.len() / 72,
            |i: int| layer_desc_at(bytes@, i * 72),
        ),
{
    let count: usize = bytes.len() / LAYER_DESC_SIZE;
    let mut layers: Vec<LayerBlockDescDisk> = Vec::new();
    let mut i: usize = 0;
    while i < count
        invariant
            i <= count,
            count == bytes@.len() / 72,
            bytes.len() <= usize::MAX,
            layers@ == Seq::new(i as nat, |i: int| layer_desc_at(bytes@, i * 72)),
        decreases count - i,
    {
        let at: usize = i * 72;
        layers.push(
            LayerBlockDescDisk {
                layer_id: load_u32(bytes, at),
                flags: load_u32(bytes, at + 4),
                dense_offset: load_u64(bytes, at + 8),
                dense_disk_bytes: load_u64(bytes, at + 16),
                dense_payload_bytes: load_u64(bytes, at + 24),
                dense_dequant_bytes: load_u64(bytes, at + 32),
                tensor_count: load_u32(bytes, at + 40),
                first_tensor_index: load_u32(bytes, at + 44),
                first_expert_index: load_u32(bytes, at + 48),
                num_experts: load_u32(bytes, at + 52),
                quant_format: load_u32(bytes, at + 56),
                checksum_kind: load_u32(bytes, at + 60),
                checksum: load_u64(bytes, at + 64),
            },
        );
        proof {
            assert(layers@ =~= Seq::new(
                (i + 1) as nat,
                |i: int| layer_desc_at(bytes@, i * 72),
            ));
        }
        i += 1;
    }
    layers
}

/// Reads the experts of a manifest: as many as the bytes hold in full.
pub fn decode_experts(bytes: &[u8]) -> (experts: Vec<ExpertBlockDescDisk>)
    ensures
        experts@ == Seq::new(
            bytes@.len() / 56,
            |i: int| expert_desc_at(bytes@, i * 56),
        ),
{
    let count: usize = bytes.len() / EXPERT_DESC_SIZE;
    let mut experts: Vec<ExpertBlockDescDisk> = Vec::new();
    let mut i: usize = 0;
    while i < count
        invariant
            i <= count,
            count == bytes@.len() / 56,
            bytes.len() <= usize::MAX,
            experts@ == Seq::new(i as nat, |i: int| expert_desc_at(bytes@, i * 56)),
        decreases count - i,
    {
        let at: usize = i * 56;
        experts.push(
            ExpertBlockDescDisk {
                layer_id: load_u32(bytes, at),
                expert_id: load_u32(bytes, at + 4),
                disk_offset: load_u64(bytes, at + 8),
                disk_bytes: load_u64(bytes, at + 16),
                payload_bytes: load_u64(bytes, at + 24),
                dequant_bytes: load_u64(bytes, at + 32),
                quant_format: load_u32(bytes, at + 40),
                route_rank_hint: load_u32(bytes, at + 44),
                checksum: load_u64(bytes, at + 48),
            },
        );
        proof {
            assert(experts@ =~= Seq::new(
                (i + 1) as nat,
                |i: int| expert_desc_at(bytes@, i * 56),
            ));
        }
        i += 1;
    }
    experts
}

/// Why a field is refused: it has to be a multiple of the block alignment.
pub open spec fn aligned_error(field: &'static str, value: u64) -> Option<ModelFormatError> {
    if value % ALIGN_2MB == 0 {
        None
    } else {
        Some(ModelFormatError::Unaligned { field, value })
    }
}

/// Checks that a field is a multiple of the block alignment.
pub fn validate_aligned(field: &'static str, value: u64) -> (result: Result<(), ModelFormatError>)
    ensures
        result == match aligned_error(field, value) {
            Some(error) => Err::<(), ModelFormatError>(error),
            None => Ok(()),
        },
{
    if !is_aligned_2mb(value) {
        return Err(ModelFormatError::Unaligned { field, value });
    }
    Ok(())
}

/// Why a header is refused, if it is.
pub open spec fn header_error(header: EngineHeader) -> Option<ModelFormatError> {
    if header.magic@ != MODEL_MAGIC@ {
        Some(ModelFormatError::InvalidMagic(header.magic))
    } else if header.version != FORMAT_VERSION {
        Some(ModelFormatError::UnsupportedVersion(header.version))
    } else if header.block_alignment != ALIGN_2MB {
        Some(
            ModelFormatError::Unaligned {
                field: "block_alignment",
                value: header.block_alignment as u64,
            },
        )
    } else {
        match aligned_error("manifest_offset", header.manifest_offset) {
            Some(error) => Some(error),
            None => match aligned_error("tokenizer_offset", header.tokenizer_offset) {
                Some(error) => Some(error),
                None => aligned_error("router_metadata_offset", header.router_metadata_offset),
            },
        }
    }
}

/// Checks the header at the start of a model file.
pub fn validate_header(header: &EngineHeader) -> (result: Result<(), ModelFormatError>)
    ensures
        result == match header_error(*header) {
            Some(error) => Err::<(), ModelFormatError>(error),
            None => Ok(()),
        },
{
    if !bytes_equal(&header.magic, &MODEL_MAGIC) {
        return Err(ModelFormatError::InvalidMagic(header.magic));
    }
    if header.version != FORMAT_VERSION {
        return Err(ModelFormatError::UnsupportedVersion(header.version));
    }
    if header.block_alignment as u64 != ALIGN_2MB {
        return Err(
            ModelFormatError::Unaligned {
                field: "block_alignment",
                value: header.block_alignment as u64,
            },
        );
    }
    validate_aligned("manifest_offset", header.manifest_offset)?;
    validate_aligned("tokenizer_offset", header.tokenizer_offset)?;
    validate_aligned("router_metadata_offset", header.router_metadata_offset)
}

/// Why a layer of the manifest is refused, if it is.
pub open spec fn layer_error(layer: LayerBlockDescDisk) -> Option<ModelFormatError> {
    match aligned_error("dense_offset", layer.dense_offset) {
        Some(error) => Some(error),
        None => aligned_error("dense_disk_bytes", layer.dense_disk_bytes),
    }
}

/// Checks a layer of the manifest.
pub fn validate_layer(layer: &LayerBlockDescDisk) -> (result: Result<(), ModelFormatError>)
    ensures
        result == match layer_error(*layer) {
            Some(error) => Err::<(), ModelFormatError>(error),
            None => Ok(()),
        },
{
    validate_aligned("dense_offset", layer.dense_offset)?;
    validate_aligned("dense_disk_bytes", layer.dense_disk_bytes)
}

/// Why an expert of the manifest is refused, if it is. An expert without an
/// offset stands in a shard of its own.
pub open spec fn expert_error(expert: ExpertBlockDescDisk) -> Option<ModelFormatError> {
    match aligned_error("expert.disk_offset", expert.disk_offset) {
        Some(error) => Some(error),
        None => aligned_error("expert.disk_bytes", expert.disk_bytes),
    }
}

/// Checks an expert of the manifest.
pub fn validate_expert(expert: &ExpertBlockDescDisk) -> (result: Result<(), ModelFormatError>)
    ensures
        result == match expert_error(*expert) {
            Some(error) => Err::<(), ModelFormatError>(error),
            None => Ok(()),
        },
{
    if expert.disk_offset == 0 {
        return validate_aligned("expert.disk_bytes", expert.disk_bytes);
    }
    validate_aligned("expert.disk_offset", expert.disk_offset)?;
    validate_aligned("expert.disk_bytes", expert.disk_bytes)
}

/// Where the tables of a manifest stand in the file: offset and length of the
/// layers, then of the experts.
#[derive(Clone, Copy, Debug, PartialEq, Eq, Structural)]
pub struct ManifestSpans {
    pub layers_offset: u64,
    pub layers_bytes: usize,
    pub experts_offset: u64,
    pub experts_bytes: usize,
}

/// The tables of a manifest.
pub open spec fn manifest_spans(header: EngineHeader, manifest: ManifestHeader) -> Result<
    ManifestSpans,
    ModelFormatError,
> {
    let layer_bytes = (manifest.layer_count as usize) * LAYER_DESC_SIZE;
    let expert_bytes = (manifest.expert_count as usize) * EXPERT_DESC_SIZE;
    if manifest.layer_count != header.num_layers {
        Err(
            ModelFormatError::LayerCountMismatch {
                header: header.num_layers,
                manifest: manifest.layer_count,
            },
        )
    } else if layer_bytes > usize::MAX || expert_bytes > usize::MAX {
        Err(ModelFormatError::TruncatedManifest)
    } else {
        Ok(
            ManifestSpans {
                layers_offset: (header.manifest_offset + manifest.layer_desc_offset) as u64,
                layers_bytes: layer_bytes as usize,
                experts_offset: (header.manifest_offset + manifest.expert_desc_offset) as u64,
                experts_bytes: expert_bytes as usize,
            },
        )
    }
}

/// Finds the tables of a manifest.
pub fn plan_manifest(header: &EngineHeader, manifest: &ManifestHeader) -> (result: Result<
    ManifestSpans,
    ModelFormatError,
>)
    requires
        manifest.layer_count == header.num_layers ==> header.manifest_offset
            + manifest.layer_desc_offset <= u64::MAX && header.manifest_offset
            + manifest.expert_desc_offset <= u64::MAX,
    ensures
        result == manifest_spans(*header, *manifest),
{
    if manifest.layer_count != header.num_layers {
        return Err(
            ModelFormatError::LayerCountMismatch {
                header: header.num_layers,
                manifest: manifest.layer_count,
            },
        );
    }
    let layer_bytes: usize = match (manifest.layer_count as usize).checked_mul(LAYER_DESC_SIZE) {
        Some(bytes) => bytes,
        None => return Err(ModelFormatError::TruncatedManifest),
    };
    let expert_bytes: usize = match (manifest.expert_count as usize).checked_mul(
        EXPERT_DESC_SIZE,
    ) {
        Some(bytes) => bytes,
        None => return Err(ModelFormatError::TruncatedManifest),
    };
    Ok(
        ManifestSpans {
            layers_offset: header.manifest_offset + manifest.layer_desc_offset,
            layers_bytes: layer_bytes,
            experts_offset: header.manifest_offset + manifest.expert_desc_offset,
            experts_bytes: expert_bytes,
        },
    )
}

/// A layer of a model, with its experts.
#[derive(Clone, Debug)]
pub struct MoELayerBlockDesc {
    pub layer_id: u32,
    pub flags: u32,
    pub dense_offset: u64,
    pub dense_disk_bytes: u64,
    pub dense_payload_bytes: u64,
    pub dense_dequant_bytes: u64,
    pub experts: Vec<ExpertBlockDescDisk>,
}

/// A layer of a model, as contents.
#[verifier::ext_equal]
pub struct LayerView {
    pub layer_id: u32,
    pub flags: u32,
    pub dense_offset: u64,
    pub dense_disk_bytes: u64,
    pub dense_payload_bytes: u64,
    pub dense_dequant_bytes: u64,
    pub experts: Seq<ExpertBlockDescDisk>,
}

impl View for MoELayerBlockDesc {
    type V = LayerView;

    open spec fn view(&self) -> LayerView {
        LayerView {
            layer_id: self.layer_id,
            flags: self.flags,
            dense_offset: self.dense_offset,
            dense_disk_bytes: self.dense_disk_bytes,
            dense_payload_bytes: self.dense_payload_bytes,
            dense_dequant_bytes: self.dense_dequant_bytes,
            experts: self.experts@,
        }
    }
}

impl LayerView {
    /// What kind of block the layer is.
    pub open spec fn kind(self) -> u32 {
        self.flags % 256
    }

    /// The block is computed.
    pub open spec fn computes(self) -> bool {
        self.kind() == LAYER_BLOCK_COMPUTE
    }
}

impl MoELayerBlockDesc {
    /// What kind of block the layer is: the low byte of its flags.
    pub fn block_type(&self) -> (kind: u32)
        ensures
            kind == self@.kind(),
    {
        self.flags % 256
    }

    /// Does the block hold what all layers share?
    pub fn is_global_auxiliary(&self) -> (auxiliary: bool)
        ensures
            auxiliary == (self@.kind() == LAYER_BLOCK_GLOBAL_AUX),
    {
        self.block_type() == LAYER_BLOCK_GLOBAL_AUX
    }

    /// Is the block computed?
    pub fn is_compute_block(&self) -> (computes: bool)
        ensures
            computes == self@.computes(),
    {
        self.block_type() == LAYER_BLOCK_COMPUTE
    }
}

/// No block is both computed and shared by all layers.
pub proof fn law_block_kinds_exclude_each_other(layer: LayerView)
    ensures
        !(layer.computes() && layer.kind() == LAYER_BLOCK_GLOBAL_AUX),
{
}

/// The contents of layers.
pub open spec fn layer_views(layers: Seq<MoELayerBlockDesc>) -> Seq<LayerView> {
    layers.map_values(|layer: MoELayerBlockDesc| layer@)
}

/// Why the experts from `from` to `end` do not make the table of a layer, if
/// they do not.
pub open spec fn table_error(
    experts: Seq<ExpertBlockDescDisk>,
    layer_id: u32,
    from: int,
    end: int,
) -> Option<ModelFormatError>
    decreases end - from,
{
    if from >= end {
        None
    } else {
        match expert_error(experts[from]) {
            Some(error) => Some(error),
            None => if experts[from].layer_id != layer_id {
                Some(ModelFormatError::InvalidExpertTable { layer_id })
            } else {
                table_error(experts, layer_id, from + 1, end)
            },
        }
    }
}

/// A layer with its experts.
pub open spec fn assembled_layer(layer: LayerBlockDescDisk, experts: Seq<ExpertBlockDescDisk>) -> Result<
    LayerView,
    ModelFormatError,
> {
    let start = (layer.first_expert_index as usize) as int;
    let end = start + (layer.num_experts as usize);
    match layer_error(layer) {
        Some(error) => Err(error),
        None => if end > experts.len() {
            Err(ModelFormatError::InvalidExpertTable { layer_id: layer.layer_id })
        } else {
            match table_error(experts, layer.layer_id, start, end) {
                Some(error) => Err(error),
                None => Ok(
                    LayerView {
                        layer_id: layer.layer_id,
                        flags: layer.flags,
                        dense_offset: layer.dense_offset,
                        dense_disk_bytes: layer.dense_disk_bytes,
                        dense_payload_bytes: layer.dense_payload_bytes,
                        dense_dequant_bytes: layer.dense_dequant_bytes,
                        experts: experts.subrange(start, end),
                    },
                ),
            }
        },
    }
}

/// The first `n` layers with their experts.
pub open spec fn assembled_layers(
    layers: Seq<LayerBlockDescDisk>,
    experts: Seq<ExpertBlockDescDisk>,
    n: int,
) -> Result<Seq<LayerView>, ModelFormatError>
    decreases n,
{
    if n <= 0 {
        Ok(seq![])
    } else {
        match assembled_layers(layers, experts, n - 1) {
            Err(error) => Err(error),
            Ok(before) => match assembled_layer(layers[n - 1], experts) {
                Err(error) => Err(error),
                Ok(layer) => Ok(before.push(layer)),
            },
        }
    }
}

proof fn lemma_assembly_error(
    layers: Seq<LayerBlockDescDisk>,
    experts: Seq<ExpertBlockDescDisk>,
    k: int,
    n: int,
)
    requires
        0 <= k <= n,
        assembled_layers(layers, experts, k) is Err,
    ensures
        assembled_layers(layers, experts, n) == assembled_layers(layers, experts, k),
    decreases n,
{
    if k < n {
        lemma_assembly_error(layers, experts, k, n - 1);
    }
}

fn assemble_layer(layer: &LayerBlockDescDisk, experts: &[ExpertBlockDescDisk]) -> (result: Result<
    MoELayerBlockDesc,
    ModelFormatError,
>)
    ensures
        crate::compute::error::agrees(result, assembled_layer(*layer, experts@)),
{
    validate_layer(layer)?;
    let len: usize = experts.len();
    let start: usize = layer.first_expert_index as usize;
    let end: usize = match start.checked_add(layer.num_experts as usize) {
        Some(end) => end,
        None => return Err(ModelFormatError::InvalidExpertTable { layer_id: layer.layer_id }),
    };
    if end > len {
        return Err(ModelFormatError::InvalidExpertTable { layer_id: layer.layer_id });
    }
    let mut table: Vec<ExpertBlockDescDisk> = Vec::new();
    let mut i: usize = start;
    while i < end
        invariant
            start <= i <= end,
            end <= experts@.len(),
            layer_error(*layer) is None,
            start == layer.first_expert_index as usize,
            end == start + (layer.num_experts as usize),
            table@ == experts@.subrange(start as int, i as int),
            table_error(experts@, layer.layer_id, start as int, end as int) == table_error(
                experts@,
                layer.layer_id,
                i as int,
                end as int,
            ),
        decreases end - i,
    {
        validate_expert(&experts[i])?;
        if experts[i].layer_id != layer.layer_id {
            return Err(ModelFormatError::InvalidExpertTable { layer_id: layer.layer_id });
        }
        table.push(experts[i]);
        proof {
            assert(table@ =~= experts@.subrange(start as int, i + 1));
        }
        i += 1;
    }
    Ok(
        MoELayerBlockDesc {
            layer_id: layer.layer_id,
            flags: layer.flags,
            dense_offset: layer.dense_offset,
            dense_disk_bytes: layer.dense_disk_bytes,
            dense_payload_bytes: layer.dense_payload_bytes,
            dense_dequant_bytes: layer.dense_dequant_bytes,
            experts: table,
        },
    )
}

/// Puts the layers of a manifest together with their experts.
pub fn assemble_layers(layers: &[LayerBlockDescDisk], experts: &[ExpertBlockDescDisk]) -> (result:
    Result<Vec<MoELayerBlockDesc>, ModelFormatError>)
    ensures
        match result {
            Ok(table) => assembled_layers(layers@, experts@, layers@.len() as int) == Ok::<
                Seq<LayerView>,
                ModelFormatError,
            >(layer_views(table@)),
            Err(error) => assembled_layers(layers@, experts@, layers@.len() as int) == Err::<
                Seq<LayerView>,
                ModelFormatError,
            >(error),
        },
{
    let mut table: Vec<MoELayerBlockDesc> = Vec::new();
    let mut i: usize = 0;
    proof {
        assert(layer_views(table@) =~= seq![]);
    }
    while i < layers.len()
        invariant
            i <= layers@.len(),
            assembled_layers(layers@, experts@, i as int) == Ok::<Seq<LayerView>, ModelFormatError>(
                layer_views(table@),
            ),
        decreases layers@.len() - i,
    {
        proof {
            if assembled_layers(layers@, experts@, i + 1) is Err {
                lemma_assembly_error(layers@, experts@, i + 1, layers@.len() as int);
            }
        }
        let ghost before = table@;
        let layer = assemble_layer(&layers[i], experts)?;
        table.push(layer);
        proof {
            assert(layer_views(table@) =~= layer_views(before).push(layer@));
        }
        i += 1;
    }
    Ok(table)
}

/// In a manifest that is accepted, every expert carries the number of its layer
/// and is aligned.
pub proof fn law_tables_belong_to_their_layers(
    layer: LayerBlockDescDisk,
    experts: Seq<ExpertBlockDescDisk>,
    i: int,
)
    requires
        assembled_layer(layer, experts) is Ok,
        0 <= i < assembled_layer(layer, experts)->Ok_0.experts.len(),
    ensures
        assembled_layer(layer, experts)->Ok_0.experts.len() == layer.num_experts as usize,
        assembled_layer(layer, experts)->Ok_0.experts[i].layer_id == layer.layer_id,
        expert_error(assembled_layer(layer, experts)->Ok_0.experts[i]) is None,
{
    let start = (layer.first_expert_index as usize) as int;
    let end = start + (layer.num_experts as usize);
    lemma_table(experts, layer.layer_id, start, end, start + i);
}

proof fn lemma_table(
    experts: Seq<ExpertBlockDescDisk>,
    layer_id: u32,
    from: int,
    end: int,
    at: int,
)
    requires
        from <= at < end,
        table_error(experts, layer_id, from, end) is None,
    ensures
        experts[at].layer_id == layer_id,
        expert_error(experts[at]) is None,
    decreases end - from,
{
    if from < at {
        lemma_table(experts, layer_id, from + 1, end, at);
    }
}

/// An expert in the shard map of a model.
#[derive(Clone, Debug)]
pub struct ExpertShardDisk {
    pub layer_id: u32,
    pub expert_id: u32,
    pub path: String,
    pub disk_bytes: u64,
    pub payload_bytes: u64,
    pub dequant_bytes: u64,
    pub quant_format: u32,
    pub checksum: u64,
}

/// The file in which an expert stands alone.
#[derive(Clone, Debug)]
pub struct ExpertShardRef {
    pub layer_id: u32,
    pub expert_id: u32,
    pub path: String,
    pub disk_bytes: u64,
    pub payload_bytes: u64,
    pub checksum: u64,
}

/// The shard that an entry of the shard map stands for.
pub open spec fn shard_of(entry: ExpertShardDisk) -> ExpertShardRef {
    ExpertShardRef {
        layer_id: entry.layer_id,
        expert_id: entry.expert_id,
        path: entry.path,
        disk_bytes: entry.disk_bytes,
        payload_bytes: entry.payload_bytes,
        checksum: entry.checksum,
    }
}

/// The experts that layers list, by layer and expert.
pub open spec fn lists(layers: Seq<LayerView>, pair: (u32, u32)) -> bool {
    exists|l: int, e: int|
        0 <= l < layers.len() && 0 <= e < layers[l].experts.len() && (
        #[trigger] layers[l].experts[e]).layer_id == pair.0 && layers[l].experts[e].expert_id
            == pair.1
}

/// The first layer from `from` on that is computed and has the number.
pub open spec fn compute_layer(layers: Seq<LayerView>, layer_id: u32, from: int) -> Option<int>
    decreases layers.len() - from,
{
    if from >= layers.len() {
        None
    } else if layers[from].computes() && layers[from].layer_id == layer_id {
        Some(from)
    } else {
        compute_layer(layers, layer_id, from + 1)
    }
}

/// The expert that an entry adds to a layer. Without a format of its own it
/// takes that of the layer's first expert.
pub open spec fn merged_expert(entry: ExpertShardDisk, layer: LayerView) -> ExpertBlockDescDisk {
    ExpertBlockDescDisk {
        layer_id: entry.layer_id,
        expert_id: entry.expert_id,
        disk_offset: 0,
        disk_bytes: entry.disk_bytes,
        payload_bytes: entry.payload_bytes,
        dequant_bytes: entry.dequant_bytes,
        quant_format: if entry.quant_format != 0 {
            entry.quant_format
        } else if layer.experts.len() > 0 {
            layer.experts[0].quant_format
        } else {
            0
        },
        route_rank_hint: entry.expert_id,
        checksum: entry.checksum,
    }
}

/// The layers and shards of a model while its shard map is read.
#[verifier::ext_equal]
pub struct ShardState {
    pub layers: Seq<LayerView>,
    pub shards: Map<(u32, u32), ExpertShardRef>,
    pub merged: nat,
}

impl ShardState {
    /// The state with a shard for the entry.
    pub open spec fn with_shard(self, entry: ExpertShardDisk) -> ShardState {
        ShardState {
            shards: self.shards.insert((entry.layer_id, entry.expert_id), shard_of(entry)),
            ..self
        }
    }

    /// The state with the entry's expert added to layer `at`, and a shard.
    pub open spec fn with_expert(self, entry: ExpertShardDisk, at: int) -> ShardState {
        let layer = self.layers[at];
        ShardState {
            layers: self.layers.update(
                at,
                LayerView { experts: layer.experts.push(merged_expert(entry, layer)), ..layer },
            ),
            merged: self.merged + 1,
            ..self
        }.with_shard(entry)
    }
}

/// Reads one entry of a shard map. An expert that the manifest does not list is
/// passed over, unless experts are merged; then it joins its computed layer,
/// where there is one.
pub open spec fn shard_step(
    state: ShardState,
    entry: ExpertShardDisk,
    manifest: Seq<LayerView>,
    merge: bool,
) -> Result<ShardState, ModelFormatError> {
    let listed = lists(manifest, (entry.layer_id, entry.expert_id));
    if !listed && !merge {
        Ok(state)
    } else {
        match aligned_error("expert_shard.disk_bytes", entry.disk_bytes) {
            Some(error) => Err(error),
            None => if listed {
                Ok(state.with_shard(entry))
            } else {
                match compute_layer(state.layers, entry.layer_id, 0) {
                    None => Ok(state),
                    Some(at) => Ok(state.with_expert(entry, at)),
                }
            },
        }
    }
}

/// Reads the first `n` entries of a shard map.
pub open spec fn shard_entries(
    manifest: Seq<LayerView>,
    entries: Seq<ExpertShardDisk>,
    merge: bool,
    n: int,
) -> Result<ShardState, ModelFormatError>
    decreases n,
{
    if n <= 0 {
        Ok(ShardState { layers: manifest, shards: Map::empty(), merged: 0 })
    } else {
        match shard_entries(manifest, entries, merge, n - 1) {
            Err(error) => Err(error),
            Ok(state) => shard_step(state, entries[n - 1], manifest, merge),
        }
    }
}

/// Experts by number, each with the key that sorts it.
pub open spec fn expert_keys(experts: Seq<ExpertBlockDescDisk>) -> Seq<(i128, ExpertBlockDescDisk)> {
    experts.map_values(|expert: ExpertBlockDescDisk| ((-expert.expert_id) as i128, expert))
}

/// Experts in the order of their numbers, equal ones in the order in which they
/// stand.
pub open spec fn by_number(experts: Seq<ExpertBlockDescDisk>) -> Seq<ExpertBlockDescDisk> {
    ranked(expert_keys(experts)).map_values(|entry: (i128, ExpertBlockDescDisk)| entry.1)
}

/// Layers with their experts in the order of their numbers.
pub open spec fn sorted_layers(layers: Seq<LayerView>) -> Seq<LayerView> {
    layers.map_values(
        |layer: LayerView| LayerView { experts: by_number(layer.experts), ..layer },
    )
}

/// What a shard map makes of the layers of a manifest. Where an expert was
/// merged, all layers are sorted.
pub open spec fn shard_map_of(
    manifest: Seq<LayerView>,
    format: Seq<u8>,
    entries: Seq<ExpertShardDisk>,
    merge: bool,
) -> Result<ShardState, ModelFormatError> {
    if format != "wohper-sharded-experts".spec_bytes() && format
        != "zeroclaw-sharded-experts".spec_bytes() {
        Err(ModelFormatError::UnsupportedFormat(SideFile::ShardMap))
    } else {
        match shard_entries(manifest, entries, merge, entries.len() as int) {
            Err(error) => Err(error),
            Ok(state) => if state.merged > 0 {
                Ok(ShardState { layers: sorted_layers(state.layers), ..state })
            } else {
                Ok(state)
            },
        }
    }
}

proof fn lemma_shard_error(
    manifest: Seq<LayerView>,
    entries: Seq<ExpertShardDisk>,
    merge: bool,
    k: int,
    n: int,
)
    requires
        0 <= k <= n,
        shard_entries(manifest, entries, merge, k) is Err,
    ensures
        shard_entries(manifest, entries, merge, n) == shard_entries(manifest, entries, merge, k),
    decreases n,
{
    if k < n {
        lemma_shard_error(manifest, entries, merge, k, n - 1);
    }
}

fn sort_experts(experts: &Vec<ExpertBlockDescDisk>) -> (sorted: Vec<ExpertBlockDescDisk>)
    ensures
        sorted@ == by_number(experts@),
{
    let mut keys: Vec<(i128, ExpertBlockDescDisk)> = Vec::new();
    let mut i: usize = 0;
    while i < experts.len()
        invariant
            i <= experts@.len(),
            keys@ == expert_keys(experts@.take(i as int)),
        decreases experts@.len() - i,
    {
        let expert: ExpertBlockDescDisk = experts[i];
        keys.push((-(expert.expert_id as i128), expert));
        proof {
            assert(keys@ =~= expert_keys(experts@.take(i + 1)));
        }
        i += 1;
    }
    proof {
        assert(experts@.take(i as int) =~= experts@);
    }
    let ordered: Vec<(i128, ExpertBlockDescDisk)> = rank_descending(&keys);
    let mut sorted: Vec<ExpertBlockDescDisk> = Vec::new();
    let mut j: usize = 0;
    while j < ordered.len()
        invariant
            j <= ordered@.len(),
            sorted@ == ordered@.take(j as int).map_values(
                |entry: (i128, ExpertBlockDescDisk)| entry.1,
            ),
        decreases ordered@.len() - j,
    {
        sorted.push(ordered[j].1);
        proof {
            assert(sorted@ =~= ordered@.take(j + 1).map_values(
                |entry: (i128, ExpertBlockDescDisk)| entry.1,
            ));
        }
        j += 1;
    }
    proof {
        assert(ordered@.take(j as int) =~= ordered@);
    }
    sorted
}

fn list_experts(layers: &Vec<MoELayerBlockDesc>) -> (known: PairMap<bool>)
    ensures
        forall|pair: (u32, u32)|
            #[trigger] known@.contains_key(pair) == lists(layer_views(layers@), pair),
{
    let ghost views = layer_views(layers@);
    let mut known: PairMap<bool> = PairMap::new();
    let mut l: usize = 0;
    while l < layers.len()
        invariant
            l <= layers@.len(),
            views == layer_views(layers@),
            forall|pair: (u32, u32)|
                #[trigger] known@.contains_key(pair) == lists(views.take(l as int), pair),
        decreases layers@.len() - l,
    {
        let experts: &Vec<ExpertBlockDescDisk> = &layers[l].experts;
        let ghost before = known@;
        let mut e: usize = 0;
        while e < experts.len()
            invariant
                e <= experts@.len(),
                forall|pair: (u32, u32)|
                    #[trigger] known@.contains_key(pair) == (before.contains_key(pair)
                        || exists|k: int|
                        0 <= k < e && (#[trigger] experts@[k]).layer_id == pair.0
                            && experts@[k].expert_id == pair.1),
            decreases experts@.len() - e,
        {
            let ghost earlier = known@;
            known.insert(experts[e].layer_id, experts[e].expert_id, true);
            proof {
                assert forall|pair: (u32, u32)|
                    #[trigger] known@.contains_key(pair) == (before.contains_key(pair)
                        || exists|k: int|
                        0 <= k < e + 1 && (#[trigger] experts@[k]).layer_id == pair.0
                            && experts@[k].expert_id == pair.1) by {
                    if earlier.contains_key(pair) && !before.contains_key(pair) {
                        let k = choose|k: int|
                            0 <= k < e && (#[trigger] experts@[k]).layer_id == pair.0
                                && experts@[k].expert_id == pair.1;
                        assert(experts@[k].layer_id == pair.0);
                    }
                    if pair == (experts@[e as int].layer_id, experts@[e as int].expert_id) {
                        assert(experts@[e as int].layer_id == pair.0);
                    }
                }
            }
            e += 1;
        }
        proof {
            let now = views.take(l + 1);
            let earlier_layers = views.take(l as int);
            assert(now[l as int].experts == experts@);
            assert forall|pair: (u32, u32)| #[trigger] known@.contains_key(pair) == lists(
                now,
                pair,
            ) by {
                if lists(earlier_layers, pair) {
                    let (a, b) = choose|a: int, b: int|
                        0 <= a < earlier_layers.len() && 0 <= b < earlier_layers[a].experts.len() && (
                        #[trigger] earlier_layers[a].experts[b]).layer_id == pair.0
                            && earlier_layers[a].experts[b].expert_id == pair.1;
                    assert(now[a].experts[b].layer_id == pair.0);
                }
                if lists(now, pair) {
                    let (a, b) = choose|a: int, b: int|
                        0 <= a < now.len() && 0 <= b < now[a].experts.len() && (
                        #[trigger] now[a].experts[b]).layer_id == pair.0
                            && now[a].experts[b].expert_id == pair.1;
                    if a < l {
                        assert(earlier_layers[a].experts[b].layer_id == pair.0);
                    } else {
                        assert(experts@[b].layer_id == pair.0);
                    }
                }
                if exists|k: int|
                    0 <= k < experts@.len() && (#[trigger] experts@[k]).layer_id == pair.0
                        && experts@[k].expert_id == pair.1 {
                    let k = choose|k: int|
                        0 <= k < experts@.len() && (#[trigger] experts@[k]).layer_id == pair.0
                            && experts@[k].expert_id == pair.1;
                    assert(now[l as int].experts[k].layer_id == pair.0);
                }
            }
        }
        l += 1;
    }
    proof {
        assert(views.take(l as int) =~= views);
    }
    known
}

fn find_compute_layer(layers: &Vec<MoELayerBlockDesc>, layer_id: u32) -> (at: Option<usize>)
    ensures
        match at {
            Some(at) => at < layers@.len() && compute_layer(layer_views(layers@), layer_id, 0)
                == Some(at as int),
            None => compute_layer(layer_views(layers@), layer_id, 0) is None,
        },
{
    let ghost views = layer_views(layers@);
    let mut i: usize = 0;
    while i < layers.len()
        invariant
            i <= layers@.len(),
            views == layer_views(layers@),
            compute_layer(views, layer_id, 0) == compute_layer(views, layer_id, i as int),
        decreases layers@.len() - i,
    {
        proof {
            assert(views[i as int] == layers@[i as int]@);
        }
        if layers[i].is_compute_block() && layers[i].layer_id == layer_id {
            return Some(i);
        }
        i += 1;
    }
    None
}

fn merge_expert(layers: &mut Vec<MoELayerBlockDesc>, at: usize, entry: &ExpertShardDisk)
    requires
        at < old(layers)@.len(),
    ensures
        layer_views(final(layers)@) == layer_views(old(layers)@).update(
            at as int,
            LayerView {
                experts: old(layers)@[at as int]@.experts.push(
                    merged_expert(*entry, old(layers)@[at as int]@),
                ),
                ..old(layers)@[at as int]@
            },
        ),
{
    let template: u32 = if layers[at].experts.len() > 0 {
        layers[at].experts[0].quant_format
    } else {
        0
    };
    let expert = ExpertBlockDescDisk {
        layer_id: entry.layer_id,
        expert_id: entry.expert_id,
        disk_offset: 0,
        disk_bytes: entry.disk_bytes,
        payload_bytes: entry.payload_bytes,
        dequant_bytes: entry.dequant_bytes,
        quant_format: if entry.quant_format != 0 {
            entry.quant_format
        } else {
            template
        },
        route_rank_hint: entry.expert_id,
        checksum: entry.checksum,
    };
    layers[at].experts.push(expert);
    proof {
        assert(layer_views(layers@) =~= layer_views(old(layers)@).update(
            at as int,
            LayerView {
                experts: old(layers)@[at as int]@.experts.push(expert),
                ..old(layers)@[at as int]@
            },
        ));
    }
}

fn sort_layers(layers: &mut Vec<MoELayerBlockDesc>)
    ensures
        layer_views(final(layers)@) == sorted_layers(layer_views(old(layers)@)),
{
    let ghost before = layer_views(layers@);
    let mut i: usize = 0;
    while i < layers.len()
        invariant
            i <= layers@.len(),
            layers@.len() == before.len(),
            forall|j: int|
                0 <= j < i ==> (#[trigger] layers@[j])@ == (LayerView {
                    experts: by_number(before[j].experts),
                    ..before[j]
                }),
            forall|j: int| i <= j < layers@.len() ==> (#[trigger] layers@[j])@ == before[j],
        decreases layers@.len() - i,
    {
        let sorted: Vec<ExpertBlockDescDisk> = sort_experts(&layers[i].experts);
        layers[i].experts = sorted;
        i += 1;
    }
    proof {
        assert(layer_views(layers@) =~= sorted_layers(before));
    }
}

/// Reads a shard map: the shards of the experts that the manifest lists and,
/// where experts are merged, of those that join a layer. Returns the shards and
/// the number of experts that joined. Where an entry is refused, the layers are
/// not to be used.
pub fn apply_shard_map(
    layers: &mut Vec<MoELayerBlockDesc>,
    format: &str,
    entries: &[ExpertShardDisk],
    merge: bool,
) -> (result: Result<(PairMap<ExpertShardRef>, usize), ModelFormatError>)
    ensures
        match shard_map_of(layer_views(old(layers)@), format.spec_bytes(), entries@, merge) {
            Err(error) => result == Err::<(PairMap<ExpertShardRef>, usize), ModelFormatError>(error),
            Ok(state) => {
                &&& result matches Ok(found)
                &&& found.0@ == state.shards
                &&& found.1 == state.merged
                &&& layer_views(final(layers)@) == state.layers
            },
        },
{
    if !bytes_equal(format.as_bytes(), "wohper-sharded-experts".as_bytes()) && !bytes_equal(
        format.as_bytes(),
        "zeroclaw-sharded-experts".as_bytes(),
    ) {
        return Err(ModelFormatError::UnsupportedFormat(SideFile::ShardMap));
    }
    let ghost manifest = layer_views(layers@);
    let known: PairMap<bool> = list_experts(layers);
    let mut shards: PairMap<ExpertShardRef> = PairMap::new();
    let mut merged: usize = 0;
    let mut i: usize = 0;
    while i < entries.len()
        invariant
            i <= entries@.len(),
            merged <= i,
            manifest == layer_views(old(layers)@),
            format.spec_bytes() == "wohper-sharded-experts".spec_bytes() || format.spec_bytes()
                == "zeroclaw-sharded-experts".spec_bytes(),
            forall|pair: (u32, u32)|
                #[trigger] known@.contains_key(pair) == lists(manifest, pair),
            shard_entries(manifest, entries@, merge, i as int) == Ok::<
                ShardState,
                ModelFormatError,
            >(
                ShardState {
                    layers: layer_views(layers@),
                    shards: shards@,
                    merged: merged as nat,
                },
            ),
        decreases entries@.len() - i,
    {
        let entry: &ExpertShardDisk = &entries[i];
        proof {
            if shard_entries(manifest, entries@, merge, i + 1) is Err {
                lemma_shard_error(manifest, entries@, merge, i + 1, entries@.len() as int);
            }
        }
        let listed: bool = known.contains(entry.layer_id, entry.expert_id);
        if listed || merge {
            validate_aligned("expert_shard.disk_bytes", entry.disk_bytes)?;
            let mut placed: bool = listed;
            if !listed {
                match find_compute_layer(layers, entry.layer_id) {
                    Some(at) => {
                        merge_expert(layers, at, entry);
                        merged += 1;
                        placed = true;
                    },
                    None => {},
                }
            }
            if placed {
                shards.insert(
                    entry.layer_id,
                    entry.expert_id,
                    ExpertShardRef {
                        layer_id: entry.layer_id,
                        expert_id: entry.expert_id,
                        path: entry.path.clone(),
                        disk_bytes: entry.disk_bytes,
                        payload_bytes: entry.payload_bytes,
                        checksum: entry.checksum,
                    },
                );
            }
        }
        i += 1;
    }
    if merged > 0 {
        sort_layers(layers);
    }
    Ok((shards, merged))
}

proof fn lemma_unmerged(manifest: Seq<LayerView>, entries: Seq<ExpertShardDisk>, n: int)
    requires
        shard_entries(manifest, entries, false, n) is Ok,
    ensures
        shard_entries(manifest, entries, false, n)->Ok_0.layers == manifest,
        shard_entries(manifest, entries, false, n)->Ok_0.merged == 0,
        forall|pair: (u32, u32)| #[trigger]
            shard_entries(manifest, entries, false, n)->Ok_0.shards.contains_key(pair) ==> lists(
                manifest,
                pair,
            ),
    decreases n,
{
    if n > 0 {
        lemma_unmerged(manifest, entries, n - 1);
    }
}

/// Without merging, a shard map leaves the layers as they are, and holds shards
/// only of experts that the manifest lists.
pub proof fn law_shard_map_keeps_to_manifest(
    manifest: Seq<LayerView>,
    format: Seq<u8>,
    entries: Seq<ExpertShardDisk>,
)
    requires
        shard_map_of(manifest, format, entries, false) is Ok,
    ensures
        shard_map_of(manifest, format, entries, false)->Ok_0.layers == manifest,
        forall|pair: (u32, u32)| #[trigger]
            shard_map_of(manifest, format, entries, false)->Ok_0.shards.contains_key(pair)
                ==> lists(manifest, pair),
{
    lemma_unmerged(manifest, entries, entries.len() as int);
}

proof fn lemma_compute_layer(layers: Seq<LayerView>, layer_id: u32, from: int)
    requires
        0 <= from,
    ensures
        compute_layer(layers, layer_id, from) matches Some(at) ==> from <= at < layers.len()
            && layers[at].computes() && layers[at].layer_id == layer_id,
    decreases layers.len() - from,
{
    if from < layers.len() && !(layers[from].computes() && layers[from].layer_id == layer_id) {
        lemma_compute_layer(layers, layer_id, from + 1);
    }
}

proof fn lemma_by_number(experts: Seq<ExpertBlockDescDisk>)
    ensures
        by_number(experts).len() == experts.len(),
        forall|i: int, j: int|
            0 <= i <= j < experts.len() ==> (#[trigger] by_number(experts)[i]).expert_id <= (
            #[trigger] by_number(experts)[j]).expert_id,
        forall|e: int| 0 <= e < experts.len() ==> by_number(experts).contains(#[trigger] experts[e]),
{
    let keys = expert_keys(experts);
    let sorted = ranked(keys);
    let result = by_number(experts);
    law_ranked_sorts(keys);
    broadcast use vstd::seq_lib::group_to_multiset_ensures;

    assert forall|i: int| 0 <= i < sorted.len() implies (#[trigger] sorted[i]).0
        == -(result[i].expert_id) by {
        assert(sorted.contains(sorted[i]));
        assert(sorted.to_multiset().count(sorted[i]) > 0);
        assert(keys.contains(sorted[i]));
        let c = choose|c: int| 0 <= c < keys.len() && keys[c] == sorted[i];
        assert(keys[c].1 == experts[c]);
    }
    assert forall|i: int, j: int| 0 <= i <= j < experts.len() implies (
    #[trigger] result[i]).expert_id <= (#[trigger] result[j]).expert_id by {
        assert(sorted[i].0 >= sorted[j].0);
    }
    assert forall|e: int| 0 <= e < experts.len() implies result.contains(#[trigger] experts[e]) by {
        assert(keys.contains(keys[e]));
        assert(keys.to_multiset().count(keys[e]) > 0);
        assert(sorted.contains(keys[e]));
        let c = choose|c: int| 0 <= c < sorted.len() && sorted[c] == keys[e];
        assert(result[c] == experts[e]);
    }
}

proof fn lemma_merge(manifest: Seq<LayerView>, entries: Seq<ExpertShardDisk>, merge: bool, n: int)
    requires
        shard_entries(manifest, entries, merge, n) is Ok,
    ensures
        ({
            let state = shard_entries(manifest, entries, merge, n)->Ok_0;
            &&& state.layers.len() == manifest.len()
            &&& forall|i: int|
                0 <= i < manifest.len() ==> {
                    let layer = #[trigger] state.layers[i];
                    &&& layer.layer_id == manifest[i].layer_id
                    &&& layer.flags == manifest[i].flags
                    &&& !manifest[i].computes() ==> layer == manifest[i]
                    &&& layer.experts.len() >= manifest[i].experts.len()
                    &&& layer.experts.take(manifest[i].experts.len() as int) == manifest[i].experts
                }
            &&& forall|pair: (u32, u32)| #[trigger]
                state.shards.contains_key(pair) ==> lists(state.layers, pair)
        }),
    decreases n,
{
    if n <= 0 {
        assert forall|i: int| 0 <= i < manifest.len() implies (
        #[trigger] manifest[i]).experts.take(manifest[i].experts.len() as int)
            == manifest[i].experts by {
            assert(manifest[i].experts.take(manifest[i].experts.len() as int)
                =~= manifest[i].experts);
        }
    } else {
        lemma_merge(manifest, entries, merge, n - 1);
        let before = shard_entries(manifest, entries, merge, n - 1)->Ok_0;
        let state = shard_entries(manifest, entries, merge, n)->Ok_0;
        let entry = entries[n - 1];
        let pair = (entry.layer_id, entry.expert_id);
        lemma_compute_layer(before.layers, entry.layer_id, 0);
        if lists(manifest, pair) {
            lemma_lists_grow(manifest, before.layers, pair);
        } else if merge {
            match compute_layer(before.layers, entry.layer_id, 0) {
                None => {},
                Some(at) => {
                    let added = state.layers[at].experts;
                    assert(added[added.len() - 1].layer_id == entry.layer_id);
                    assert forall|i: int| 0 <= i < manifest.len() implies (
                    #[trigger] state.layers[i]).experts.take(manifest[i].experts.len() as int)
                        == manifest[i].experts by {
                        assert(state.layers[i].experts.take(manifest[i].experts.len() as int)
                            =~= before.layers[i].experts.take(manifest[i].experts.len() as int));
                    }
                    assert forall|other: (u32, u32)| #[trigger]
                        state.shards.contains_key(other) implies lists(state.layers, other) by {
                        if other != pair {
                            assert(before.shards.contains_key(other));
                            lemma_lists_extend(before.layers, state.layers, at, other);
                        }
                    }
                },
            }
        }
    }
}

proof fn lemma_lists_grow(manifest: Seq<LayerView>, layers: Seq<LayerView>, pair: (u32, u32))
    requires
        lists(manifest, pair),
        layers.len() == manifest.len(),
        forall|i: int|
            0 <= i < manifest.len() ==> (#[trigger] layers[i]).experts.len()
                >= manifest[i].experts.len() && layers[i].experts.take(
                manifest[i].experts.len() as int,
            ) == manifest[i].experts,
    ensures
        lists(layers, pair),
{
    let (l, e) = choose|l: int, e: int|
        0 <= l < manifest.len() && 0 <= e < manifest[l].experts.len() && (
        #[trigger] manifest[l].experts[e]).layer_id == pair.0 && manifest[l].experts[e].expert_id
            == pair.1;
    assert(layers[l].experts.take(manifest[l].experts.len() as int)[e] == layers[l].experts[e]);
    assert(layers[l].experts[e].layer_id == pair.0);
}

proof fn lemma_lists_extend(
    before: Seq<LayerView>,
    after: Seq<LayerView>,
    at: int,
    pair: (u32, u32),
)
    requires
        lists(before, pair),
        0 <= at < before.len(),
        after.len() == before.len(),
        forall|i: int|
            0 <= i < before.len() && i != at ==> #[trigger] after[i] == before[i],
        after[at].experts.len() == before[at].experts.len() + 1,
        forall|e: int|
            0 <= e < before[at].experts.len() ==> #[trigger] after[at].experts[e]
                == before[at].experts[e],
    ensures
        lists(after, pair),
{
    let (l, e) = choose|l: int, e: int|
        0 <= l < before.len() && 0 <= e < before[l].experts.len() && (
        #[trigger] before[l].experts[e]).layer_id == pair.0 && before[l].experts[e].expert_id
            == pair.1;
    assert(after[l].experts[e] == before[l].experts[e]);
    assert(after[l].experts[e].layer_id == pair.0);
}

proof fn lemma_lists_sorted(layers: Seq<LayerView>, pair: (u32, u32))
    requires
        lists(layers, pair),
    ensures
        lists(sorted_layers(layers), pair),
{
    let (l, e) = choose|l: int, e: int|
        0 <= l < layers.len() && 0 <= e < layers[l].experts.len() && (
        #[trigger] layers[l].experts[e]).layer_id == pair.0 && layers[l].experts[e].expert_id
            == pair.1;
    lemma_by_number(layers[l].experts);
    let sorted = by_number(layers[l].experts);
    let c = choose|c: int| 0 <= c < sorted.len() && sorted[c] == layers[l].experts[e];
    assert(sorted_layers(layers)[l].experts[c].layer_id == pair.0);
}

/// Every shard is of an expert that a layer lists in the end, so that a route
/// can lead to it.
pub proof fn law_shards_can_be_routed(
    manifest: Seq<LayerView>,
    format: Seq<u8>,
    entries: Seq<ExpertShardDisk>,
    merge: bool,
    pair: (u32, u32),
)
    requires
        shard_map_of(manifest, format, entries, merge) is Ok,
        shard_map_of(manifest, format, entries, merge)->Ok_0.shards.contains_key(pair),
    ensures
        lists(shard_map_of(manifest, format, entries, merge)->Ok_0.layers, pair),
{
    lemma_merge(manifest, entries, merge, entries.len() as int);
    let state = shard_entries(manifest, entries, merge, entries.len() as int)->Ok_0;
    if state.merged > 0 {
        lemma_lists_sorted(state.layers, pair);
    }
}

/// Merging leaves blocks that are not computed without new experts, and never
/// takes an expert away. Where an expert was merged, the experts of every layer
/// stand in the order of their numbers.
pub proof fn law_merge_extends_computed_layers(
    manifest: Seq<LayerView>,
    format: Seq<u8>,
    entries: Seq<ExpertShardDisk>,
    i: int,
)
    requires
        shard_map_of(manifest, format, entries, true) is Ok,
        0 <= i < manifest.len(),
    ensures
        ({
            let state = shard_map_of(manifest, format, entries, true)->Ok_0;
            let layer = state.layers[i];
            &&& state.layers.len() == manifest.len()
            &&& layer.layer_id == manifest[i].layer_id
            &&& layer.experts.len() >= manifest[i].experts.len()
            &&& !manifest[i].computes() ==> layer.experts.len() == manifest[i].experts.len()
            &&& forall|e: int|
                0 <= e < manifest[i].experts.len() ==> layer.experts.contains(
                    #[trigger] manifest[i].experts[e],
                )
            &&& state.merged > 0 ==> forall|a: int, b: int|
                0 <= a <= b < layer.experts.len() ==> (#[trigger] layer.experts[a]).expert_id <= (
                #[trigger] layer.experts[b]).expert_id
        }),
{
    lemma_merge(manifest, entries, true, entries.len() as int);
    let state = shard_entries(manifest, entries, true, entries.len() as int)->Ok_0;
    let experts = state.layers[i].experts;
    lemma_by_number(experts);
    assert forall|e: int| 0 <= e < manifest[i].experts.len() implies {
        &&& experts.contains(#[trigger] manifest[i].experts[e])
        &&& by_number(experts).contains(manifest[i].experts[e])
    } by {
        assert(experts.take(manifest[i].experts.len() as int)[e] == experts[e]);
        assert(experts[e] == manifest[i].experts[e]);
        assert(by_number(experts).contains(experts[e]));
    }
}

/// An expert in the index of a pack.
#[derive(Clone, Copy, Debug, PartialEq, Eq, Structural)]
pub struct ExpertPackEntryDisk {
    pub layer_id: u32,
    pub expert_id: u32,
    pub offset: u64,
    pub disk_bytes: u64,
    pub payload_bytes: u64,
}

/// Where an expert stands in the pack.
#[derive(Clone, Copy, Debug, PartialEq, Eq, Structural)]
pub struct ExpertPackEntry {
    pub offset: u64,
    pub disk_bytes: u64,
    pub payload_bytes: u64,
}

/// Checks the format of the index of a pack.
pub fn validate_pack_format(format: &str) -> (result: Result<(), ModelFormatError>)
    ensures
        result == if format.spec_bytes() == "wohper-experts-pack".spec_bytes()
            || format.spec_bytes() == "zeroclaw-experts-pack".spec_bytes() {
            Ok::<(), ModelFormatError>(())
        } else {
            Err(ModelFormatError::UnsupportedFormat(SideFile::ExpertPack))
        },
{
    if !bytes_equal(format.as_bytes(), "wohper-experts-pack".as_bytes()) && !bytes_equal(
        format.as_bytes(),
        "zeroclaw-experts-pack".as_bytes(),
    ) {
        return Err(ModelFormatError::UnsupportedFormat(SideFile::ExpertPack));
    }
    Ok(())
}

/// The first `n` entries of a pack: of those for one expert, the last.
pub open spec fn pack_entries(entries: Seq<ExpertPackEntryDisk>, n: int) -> Result<
    Map<(u32, u32), ExpertPackEntry>,
    ModelFormatError,
>
    decreases n,
{
    if n <= 0 {
        Ok(Map::empty())
    } else {
        match pack_entries(entries, n - 1) {
            Err(error) => Err(error),
            Ok(before) => {
                let entry = entries[n - 1];
                match aligned_error("expert_pack.offset", entry.offset) {
                    Some(error) => Err(error),
                    None => match aligned_error("expert_pack.disk_bytes", entry.disk_bytes) {
                        Some(error) => Err(error),
                        None => Ok(
                            before.insert(
                                (entry.layer_id, entry.expert_id),
                                ExpertPackEntry {
                                    offset: entry.offset,
                                    disk_bytes: entry.disk_bytes,
                                    payload_bytes: entry.payload_bytes,
                                },
                            ),
                        ),
                    },
                }
            },
        }
    }
}

proof fn lemma_pack_error(entries: Seq<ExpertPackEntryDisk>, k: int, n: int)
    requires
        0 <= k <= n,
        pack_entries(entries, k) is Err,
    ensures
        pack_entries(entries, n) == pack_entries(entries, k),
    decreases n,
{
    if k < n {
        lemma_pack_error(entries, k, n - 1);
    }
}

/// Reads the entries of a pack.
pub fn read_pack_entries(entries: &[ExpertPackEntryDisk]) -> (result: Result<
    PairMap<ExpertPackEntry>,
    ModelFormatError,
>)
    ensures
        crate::compute::error::agrees(result, pack_entries(entries@, entries@.len() as int)),
{
    let mut map: PairMap<ExpertPackEntry> = PairMap::new();
    let mut i: usize = 0;
    while i < entries.len()
        invariant
            i <= entries@.len(),
            pack_entries(entries@, i as int) == Ok::<
                Map<(u32, u32), ExpertPackEntry>,
                ModelFormatError,
            >(map@),
        decreases entries@.len() - i,
    {
        proof {
            if pack_entries(entries@, i + 1) is Err {
                lemma_pack_error(entries@, i + 1, entries@.len() as int);
            }
        }
        let entry: ExpertPackEntryDisk = entries[i];
        validate_aligned("expert_pack.offset", entry.offset)?;
        validate_aligned("expert_pack.disk_bytes", entry.disk_bytes)?;
        map.insert(
            entry.layer_id,
            entry.expert_id,
            ExpertPackEntry {
                offset: entry.offset,
                disk_bytes: entry.disk_bytes,
                payload_bytes: entry.payload_bytes,
            },
        );
        i += 1;
    }
    Ok(map)
}

/// The pack of a model: the file that holds its experts, and where.
pub struct ExpertPackInfo {
    pub file: String,
    pub entries: PairMap<ExpertPackEntry>,
}

/// A model: its header, its layers, and where its experts stand.
pub struct ModelManifest {
    pub header: EngineHeader,
    pub layers: Vec<MoELayerBlockDesc>,
    pub base_dir: String,
    pub expert_shards: PairMap<ExpertShardRef>,
    pub expert_pack: Option<ExpertPackInfo>,
}

/// A shard map as it stands in its file, with paths from the root or from where
/// the program runs.
pub struct ShardMapFile {
    pub format: String,
    pub experts: Vec<ExpertShardDisk>,
}

/// The index of a pack as it stands in its file, and whether the pack is there.
pub struct ExpertPackFile {
    pub format: String,
    pub file: String,
    pub present: bool,
    pub entries: Vec<ExpertPackEntryDisk>,
}

/// The layers and shards of a model, with its shard map where it has one.
pub open spec fn sharded(
    layers: Seq<LayerBlockDescDisk>,
    experts: Seq<ExpertBlockDescDisk>,
    shard_map: Option<ShardMapFile>,
    merge: bool,
) -> Result<ShardState, ModelFormatError> {
    match assembled_layers(layers, experts, layers.len() as int) {
        Err(error) => Err(error),
        Ok(manifest) => match shard_map {
            None => Ok(ShardState { layers: manifest, shards: Map::empty(), merged: 0 }),
            Some(map) => shard_map_of(manifest, encode_utf8(map.format@), map.experts@, merge),
        },
    }
}

/// The entries of a pack whose index and file are in order.
pub open spec fn pack_of(pack: ExpertPackFile) -> Result<
    Map<(u32, u32), ExpertPackEntry>,
    ModelFormatError,
> {
    let format = encode_utf8(pack.format@);
    if format != "wohper-experts-pack".spec_bytes() && format
        != "zeroclaw-experts-pack".spec_bytes() {
        Err(ModelFormatError::UnsupportedFormat(SideFile::ExpertPack))
    } else if !pack.present {
        Err(ModelFormatError::MissingPackFile)
    } else {
        pack_entries(pack.entries@, pack.entries@.len() as int)
    }
}

/// Reads the index of a pack.
pub fn load_expert_pack(pack: ExpertPackFile) -> (result: Result<ExpertPackInfo, ModelFormatError>)
    ensures
        match pack_of(pack) {
            Err(error) => result == Err::<ExpertPackInfo, ModelFormatError>(error),
            Ok(entries) => result matches Ok(info) && info.file == pack.file && info.entries@
                == entries,
        },
{
    validate_pack_format(pack.format.as_str())?;
    if !pack.present {
        return Err(ModelFormatError::MissingPackFile);
    }
    let entries: PairMap<ExpertPackEntry> = read_pack_entries(pack.entries.as_slice())?;
    Ok(ExpertPackInfo { file: pack.file, entries })
}

impl ModelManifest {
    /// Puts a model together: its tables first, its shard map behind them and
    /// its pack last. With it comes how many experts the shard map added.
    pub fn load(
        header: EngineHeader,
        layers: &[LayerBlockDescDisk],
        experts: &[ExpertBlockDescDisk],
        base_dir: String,
        shard_map: Option<ShardMapFile>,
        merge: bool,
        pack: Option<ExpertPackFile>,
    ) -> (result: Result<(Self, usize), ModelFormatError>)
        ensures
            match sharded(layers@, experts@, shard_map, merge) {
                Err(error) => result == Err::<(Self, usize), ModelFormatError>(error),
                Ok(state) => match pack {
                    Some(pack) if pack_of(pack) is Err => result == Err::<
                        (Self, usize),
                        ModelFormatError,
                    >(pack_of(pack)->Err_0),
                    _ => {
                        &&& result matches Ok((manifest, merged))
                        &&& manifest.header == header
                        &&& manifest.base_dir == base_dir
                        &&& layer_views(manifest.layers@) == state.layers
                        &&& manifest.expert_shards@ == state.shards
                        &&& merged == state.merged
                        &&& match pack {
                            None => manifest.expert_pack is None,
                            Some(pack) => manifest.expert_pack matches Some(info) && info.file
                                == pack.file && pack_of(pack) == Ok::<
                                Map<(u32, u32), ExpertPackEntry>,
                                ModelFormatError,
                            >(info.entries@),
                        }
                    },
                },
            },
    {
        let mut table: Vec<MoELayerBlockDesc> = assemble_layers(layers, experts)?;
        let (expert_shards, merged): (PairMap<ExpertShardRef>, usize) = match &shard_map {
            None => (PairMap::new(), 0),
            Some(map) => apply_shard_map(
                &mut table,
                map.format.as_str(),
                map.experts.as_slice(),
                merge,
            )?,
        };
        let expert_pack: Option<ExpertPackInfo> = match pack {
            None => None,
            Some(pack) => Some(load_expert_pack(pack)?),
        };
        Ok((ModelManifest { header, layers: table, base_dir, expert_shards, expert_pack }, merged))
    }

    /// Where the pack has an expert, if it has it.
    pub open spec fn packed(&self, layer_id: u32, expert_id: u32) -> Option<ExpertPackEntry> {
        match self.expert_pack {
            Some(pack) => if pack.entries@.contains_key((layer_id, expert_id)) {
                Some(pack.entries@[(layer_id, expert_id)])
            } else {
                None
            },
            None => None,
        }
    }

    /// The shard of an expert.
    pub fn expert_shard(&self, layer_id: u32, expert_id: u32) -> (shard: Option<&ExpertShardRef>)
        ensures
            match shard {
                Some(found) => self.expert_shards@.contains_key((layer_id, expert_id)) && *found
                    == self.expert_shards@[(layer_id, expert_id)],
                None => !self.expert_shards@.contains_key((layer_id, expert_id)),
            },
    {
        self.expert_shards.get(layer_id, expert_id)
    }

    /// Where the pack has an expert.
    pub fn expert_pack_entry(&self, layer_id: u32, expert_id: u32) -> (entry: Option<
        ExpertPackEntry,
    >)
        ensures
            entry == self.packed(layer_id, expert_id),
    {
        match &self.expert_pack {
            Some(pack) => match pack.entries.get(layer_id, expert_id) {
                Some(entry) => Some(*entry),
                None => None,
            },
            None => None,
        }
    }

    /// The file of the pack.
    pub fn expert_pack_file(&self) -> (file: Option<&str>)
        ensures
            match self.expert_pack {
                Some(pack) => file matches Some(name) && name@ == pack.file@,
                None => file is None,
            },
    {
        match &self.expert_pack {
            Some(pack) => Some(pack.file.as_str()),
            None => None,
        }
    }

    /// Does an expert stand in a shard of its own?
    pub fn is_streaming_expert(&self, layer_id: u32, expert_id: u32) -> (streaming: bool)
        ensures
            streaming == self.expert_shards@.contains_key((layer_id, expert_id)),
    {
        self.expert_shards.contains(layer_id, expert_id)
    }
}

/// A manifest header as it stands on disk: its fields one behind the other.
pub open spec fn manifest_header_bytes(header: ManifestHeader) -> Seq<u8> {
    le32(header.layer_count) + le32(header.expert_count) + le32(header.tensor_count) + le32(header.reserved) + le64(header.layer_desc_offset) + le64(header.expert_desc_offset) + le64(header.tensor_desc_offset)
}

/// A manifest header that stands somewhere on disk is read back from there.
#[verifier::spinoff_prover]
#[verifier::rlimit(80)]
pub proof fn law_manifest_headers_read_back(header: ManifestHeader, before: Seq<u8>, after: Seq<u8>)
    ensures
        manifest_header_bytes(header).len() == 40,
        manifest_header_of((before + manifest_header_bytes(header) + after).skip(before.len() as int)) == header,
{
    reveal(le32);
    reveal(le64);
    let whole = before + manifest_header_bytes(header) + after;
    let s = whole.skip(before.len() as int);
    let at = 0int;
    assert(s =~= manifest_header_bytes(header) + after);
    assert(manifest_header_bytes(header).len() == 40);
    assert(s.subrange(at, at + 40) =~= manifest_header_bytes(header));
    assert(s.subrange(at + 0, at + 4) =~= manifest_header_bytes(header).subrange(0, 4));
    assert(manifest_header_bytes(header).subrange(0, 4) =~= le32(header.layer_count));
    lemma_u32_at(s, at + 0, header.layer_count);
    assert(s.subrange(at + 4, at + 8) =~= manifest_header_bytes(header).subrange(4, 8));
    assert(manifest_header_bytes(header).subrange(4, 8) =~= le32(header.expert_count));
    lemma_u32_at(s, at + 4, header.expert_count);
    assert(s.subrange(at + 8, at + 12) =~= manifest_header_bytes(header).subrange(8, 12));
    assert(manifest_header_bytes(header).subrange(8, 12) =~= le32(header.tensor_count));
    lemma_u32_at(s, at + 8, header.tensor_count);
    assert(s.subrange(at + 12, at + 16) =~= manifest_header_bytes(header).subrange(12, 16));
    assert(manifest_header_bytes(header).subrange(12, 16) =~= le32(header.reserved));
    lemma_u32_at(s, at + 12, header.reserved);
    assert(s.subrange(at + 16, at + 24) =~= manifest_header_bytes(header).subrange(16, 24));
    assert(manifest_header_bytes(header).subrange(16, 24) =~= le64(header.layer_desc_offset));
    lemma_u64_at(s, at + 16, header.layer_desc_offset);
    assert(s.subrange(at + 24, at + 32) =~= manifest_header_bytes(header).subrange(24, 32));
    assert(manifest_header_bytes(header).subrange(24, 32) =~= le64(header.expert_desc_offset));
    lemma_u64_at(s, at + 24, header.expert_desc_offset);
    assert(s.subrange(at + 32, at + 40) =~= manifest_header_bytes(header).subrange(32, 40));
    assert(manifest_header_bytes(header).subrange(32, 40) =~= le64(header.tensor_desc_offset));
    lemma_u64_at(s, at + 32, header.tensor_desc_offset);
}

/// The record of a layer as it stands on disk: its fields one behind the other.
pub open spec fn layer_desc_bytes(layer: LayerBlockDescDisk) -> Seq<u8> {
    le32(layer.layer_id) + le32(layer.flags) + le64(layer.dense_offset) + le64(layer.dense_disk_bytes) + le64(layer.dense_payload_bytes) + le64(layer.dense_dequant_bytes) + le32(layer.tensor_count) + le32(layer.first_tensor_index) + le32(layer.first_expert_index) + le32(layer.num_experts) + le32(layer.quant_format) + le32(layer.checksum_kind) + le64(layer.checksum)
}

/// The record of a layer is read back from where it stands.
#[verifier::spinoff_prover]
#[verifier::rlimit(80)]
pub proof fn law_layer_records_read_back(layer: LayerBlockDescDisk, before: Seq<u8>, after: Seq<u8>)
    ensures
        layer_desc_bytes(layer).len() == 72,
        layer_desc_at(before + layer_desc_bytes(layer) + after, before.len() as int) == layer,
{
    reveal(le32);
    reveal(le64);
    let s = before + layer_desc_bytes(layer) + after;
    let at = before.len() as int;
    assert(layer_desc_bytes(layer).len() == 72);
    assert(s.subrange(at, at + 72) =~= layer_desc_bytes(layer));
    assert(s.subrange(at + 0, at + 4) =~= layer_desc_bytes(layer).subrange(0, 4));
    assert(layer_desc_bytes(layer).subrange(0, 4) =~= le32(layer.layer_id));
    lemma_u32_at(s, at + 0, layer.layer_id);
    assert(s.subrange(at + 4, at + 8) =~= layer_desc_bytes(layer).subrange(4, 8));
    assert(layer_desc_bytes(layer).subrange(4, 8) =~= le32(layer.flags));
    lemma_u32_at(s, at + 4, layer.flags);
    assert(s.subrange(at + 8, at + 16) =~= layer_desc_bytes(layer).subrange(8, 16));
    assert(layer_desc_bytes(layer).subrange(8, 16) =~= le64(layer.dense_offset));
    lemma_u64_at(s, at + 8, layer.dense_offset);
    assert(s.subrange(at + 16, at + 24) =~= layer_desc_bytes(layer).subrange(16, 24));
    assert(layer_desc_bytes(layer).subrange(16, 24) =~= le64(layer.dense_disk_bytes));
    lemma_u64_at(s, at + 16, layer.dense_disk_bytes);
    assert(s.subrange(at + 24, at + 32) =~= layer_desc_bytes(layer).subrange(24, 32));
    assert(layer_desc_bytes(layer).subrange(24, 32) =~= le64(layer.dense_payload_bytes));
    lemma_u64_at(s, at + 24, layer.dense_payload_bytes);
    assert(s.subrange(at + 32, at + 40) =~= layer_desc_bytes(layer).subrange(32, 40));
    assert(layer_desc_bytes(layer).subrange(32, 40) =~= le64(layer.dense_dequant_bytes));
    lemma_u64_at(s, at + 32, layer.dense_dequant_bytes);
    assert(s.subrange(at + 40, at + 44) =~= layer_desc_bytes(layer).subrange(40, 44));
    assert(layer_desc_bytes(layer).subrange(40, 44) =~= le32(layer.tensor_count));
    lemma_u32_at(s, at + 40, layer.tensor_count);
    assert(s.subrange(at + 44, at + 48) =~= layer_desc_bytes(layer).subrange(44, 48));
    assert(layer_desc_bytes(layer).subrange(44, 48) =~= le32(layer.first_tensor_index));
    lemma_u32_at(s, at + 44, layer.first_tensor_index);
    assert(s.subrange(at + 48, at + 52) =~= layer_desc_bytes(layer).subrange(48, 52));
    assert(layer_desc_bytes(layer).subrange(48, 52) =~= le32(layer.first_expert_index));
    lemma_u32_at(s, at + 48, layer.first_expert_index);
    assert(s.subrange(at + 52, at + 56) =~= layer_desc_bytes(layer).subrange(52, 56));
    assert(layer_desc_bytes(layer).subrange(52, 56) =~= le32(layer.num_experts));
    lemma_u32_at(s, at + 52, layer.num_experts);
    assert(s.subrange(at + 56, at + 60) =~= layer_desc_bytes(layer).subrange(56, 60));
    assert(layer_desc_bytes(layer).subrange(56, 60) =~= le32(layer.quant_format));
    lemma_u32_at(s, at + 56, layer.quant_format);
    assert(s.subrange(at + 60, at + 64) =~= layer_desc_bytes(layer).subrange(60, 64));
    assert(layer_desc_bytes(layer).subrange(60, 64) =~= le32(layer.checksum_kind));
    lemma_u32_at(s, at + 60, layer.checksum_kind);
    assert(s.subrange(at + 64, at + 72) =~= layer_desc_bytes(layer).subrange(64, 72));
    assert(layer_desc_bytes(layer).subrange(64, 72) =~= le64(layer.checksum));
    lemma_u64_at(s, at + 64, layer.checksum);
}

/// The record of an expert as it stands on disk: its fields one behind the other.
pub open spec fn expert_desc_bytes(expert: ExpertBlockDescDisk) -> Seq<u8> {
    le32(expert.layer_id) + le32(expert.expert_id) + le64(expert.disk_offset) + le64(expert.disk_bytes) + le64(expert.payload_bytes) + le64(expert.dequant_bytes) + le32(expert.quant_format) + le32(expert.route_rank_hint) + le64(expert.checksum)
}

/// The record of an expert is read back from where it stands.
#[verifier::spinoff_prover]
#[verifier::rlimit(80)]
pub proof fn law_expert_records_read_back(expert: ExpertBlockDescDisk, before: Seq<u8>, after: Seq<u8>)
    ensures
        expert_desc_bytes(expert).len() == 56,
        expert_desc_at(before + expert_desc_bytes(expert) + after, before.len() as int) == expert,
{
    reveal(le32);
    reveal(le64);
    let s = before + expert_desc_bytes(expert) + after;
    let at = before.len() as int;
    assert(expert_desc_bytes(expert).len() == 56);
    assert(s.subrange(at, at + 56) =~= expert_desc_bytes(expert));
    assert(s.subrange(at + 0, at + 4) =~= expert_desc_bytes(expert).subrange(0, 4));
    assert(expert_desc_bytes(expert).subrange(0, 4) =~= le32(expert.layer_id));
    lemma_u32_at(s, at + 0, expert.layer_id);
    assert(s.subrange(at + 4, at + 8) =~= expert_desc_bytes(expert).subrange(4, 8));
    assert(expert_desc_bytes(expert).subrange(4, 8) =~= le32(expert.expert_id));
    lemma_u32_at(s, at + 4, expert.expert_id);
    assert(s.subrange(at + 8, at + 16) =~= expert_desc_bytes(expert).subrange(8, 16));
    assert(expert_desc_bytes(expert).subrange(8, 16) =~= le64(expert.disk_offset));
    lemma_u64_at(s, at + 8, expert.disk_offset);
    assert(s.subrange(at + 16, at + 24) =~= expert_desc_bytes(expert).subrange(16, 24));
    assert(expert_desc_bytes(expert).subrange(16, 24) =~= le64(expert.disk_bytes));
    lemma_u64_at(s, at + 16, expert.disk_bytes);
    assert(s.subrange(at + 24, at + 32) =~= expert_desc_bytes(expert).subrange(24, 32));
    assert(expert_desc_bytes(expert).subrange(24, 32) =~= le64(expert.payload_bytes));
    lemma_u64_at(s, at + 24, expert.payload_bytes);
    assert(s.subrange(at + 32, at + 40) =~= expert_desc_bytes(expert).subrange(32, 40));
    assert(expert_desc_bytes(expert).subrange(32, 40) =~= le64(expert.dequant_bytes));
    lemma_u64_at(s, at + 32, expert.dequant_bytes);
    assert(s.subrange(at + 40, at + 44) =~= expert_desc_bytes(expert).subrange(40, 44));
    assert(expert_desc_bytes(expert).subrange(40, 44) =~= le32(expert.quant_format));
    lemma_u32_at(s, at + 40, expert.quant_format);
    assert(s.subrange(at + 44, at + 48) =~= expert_desc_bytes(expert).subrange(44, 48));
    assert(expert_desc_bytes(expert).subrange(44, 48) =~= le32(expert.route_rank_hint));
    lemma_u32_at(s, at + 44, expert.route_rank_hint);
    assert(s.subrange(at + 48, at + 56) =~= expert_desc_bytes(expert).subrange(48, 56));
    assert(expert_desc_bytes(expert).subrange(48, 56) =~= le64(expert.checksum));
    lemma_u64_at(s, at + 48, expert.checksum);
}

proof fn lemma_whole_table(
    experts: Seq<ExpertBlockDescDisk>,
    layer_id: u32,
    from: int,
    end: int,
)
    requires
        table_error(experts, layer_id, from, end) is None,
    ensures
        forall|i: int|
            from <= i < end ==> (#[trigger] experts[i]).layer_id == layer_id && experts[i].disk_offset
                % 0x20_0000 == 0 && experts[i].disk_bytes % 0x20_0000 == 0,
    decreases end - from,
{
    if from < end {
        lemma_whole_table(experts, layer_id, from + 1, end);
    }
}

/// The table of layers has one entry for each record, in the order of the records,
/// with the fields of the record and the run of experts that it points to; all of
/// them start on pages of two megabytes and belong to the layer.
pub proof fn law_layers_follow_their_records(
    layers: Seq<LayerBlockDescDisk>,
    experts: Seq<ExpertBlockDescDisk>,
    n: int,
)
    requires
        0 <= n <= layers.len(),
    ensures
        assembled_layers(layers, experts, n) matches Ok(table) ==> {
            &&& table.len() == n
            &&& forall|i: int|
                0 <= i < n ==> {
                    let layer = #[trigger] table[i];
                    let start = (layers[i].first_expert_index as usize) as int;
                    &&& layer.layer_id == layers[i].layer_id
                    &&& layer.flags == layers[i].flags
                    &&& layer.dense_offset == layers[i].dense_offset
                    &&& layer.dense_disk_bytes == layers[i].dense_disk_bytes
                    &&& layer.dense_payload_bytes == layers[i].dense_payload_bytes
                    &&& layer.dense_dequant_bytes == layers[i].dense_dequant_bytes
                    &&& layer.dense_offset % 0x20_0000 == 0
                    &&& layer.dense_disk_bytes % 0x20_0000 == 0
                    &&& layer.experts.len() == layers[i].num_experts as usize
                    &&& start + layer.experts.len() <= experts.len()
                    &&& forall|e: int|
                        0 <= e < layer.experts.len() ==> #[trigger] layer.experts[e]
                            == experts[start + e] && layer.experts[e].layer_id == layer.layer_id
                            && layer.experts[e].disk_offset % 0x20_0000 == 0
                            && layer.experts[e].disk_bytes % 0x20_0000 == 0
                }
        },
    decreases n,
{
    if n > 0 {
        law_layers_follow_their_records(layers, experts, n - 1);
        if assembled_layers(layers, experts, n) is Ok {
            let table = assembled_layers(layers, experts, n)->Ok_0;
            let before = assembled_layers(layers, experts, n - 1)->Ok_0;
            let record = layers[n - 1];
            let start = (record.first_expert_index as usize) as int;
            let end = start + (record.num_experts as usize);
            lemma_whole_table(experts, record.layer_id, start, end);
            assert(assembled_layer(record, experts) == Ok::<LayerView, ModelFormatError>(
                table[n - 1],
            ));
            assert forall|i: int| 0 <= i < n - 1 implies #[trigger] table[i] == before[i] by {}
        }
    }
}

/// A map of shards names an expert only by an entry for it, and by the last one
/// for it: with the path and the sizes of that entry.
pub proof fn law_shards_repeat_their_entry(
    manifest: Seq<LayerView>,
    entries: Seq<ExpertShardDisk>,
    merge: bool,
    n: int,
    pair: (u32, u32),
)
    requires
        0 <= n <= entries.len(),
    ensures
        (shard_entries(manifest, entries, merge, n) matches Ok(state) && state.shards.contains_key(
            pair,
        )) ==> exists|i: int|
            {
                let shard = shard_entries(manifest, entries, merge, n)->Ok_0.shards[pair];
                &&& 0 <= i < n
                &&& (#[trigger] entries[i]).layer_id == pair.0
                &&& entries[i].expert_id == pair.1
                &&& shard.layer_id == pair.0
                &&& shard.expert_id == pair.1
                &&& shard.path == entries[i].path
                &&& shard.disk_bytes == entries[i].disk_bytes
                &&& shard.payload_bytes == entries[i].payload_bytes
                &&& shard.checksum == entries[i].checksum
                &&& entries[i].disk_bytes % 0x20_0000 == 0
                &&& lists(manifest, pair) ==> forall|j: int|
                    i < j < n ==> (#[trigger] entries[j]).layer_id != pair.0 || entries[j].expert_id
                        != pair.1
            },
    decreases n,
{
    if n > 0 {
        law_shards_repeat_their_entry(manifest, entries, merge, n - 1, pair);
        if shard_entries(manifest, entries, merge, n) is Ok {
            let state = shard_entries(manifest, entries, merge, n)->Ok_0;
            let before = shard_entries(manifest, entries, merge, n - 1)->Ok_0;
            let entry = entries[n - 1];
            if state.shards.contains_key(pair) {
                if entry.layer_id == pair.0 && entry.expert_id == pair.1 {
                    if state.shards != before.shards || lists(manifest, pair) {
                        assert(state.shards[pair] == shard_of(entry));
                        assert(entries[n - 1] == entry);
                    } else {
                        assert(before.shards.contains_key(pair));
                    }
                } else {
                    assert(before.shards.contains_key(pair));
                    assert(state.shards[pair] == before.shards[pair]);
                }
            }
        }
    }
}

/// An expert that the shards add stands in a file of its own, from the start, with
/// the sizes of its entry, behind the experts of its layer.
pub proof fn law_added_experts_stand_alone(state: ShardState, entry: ExpertShardDisk, at: int)
    requires
        0 <= at < state.layers.len(),
    ensures
        ({
            let after = state.with_expert(entry, at);
            let added = after.layers[at].experts.last();
            &&& after.layers.len() == state.layers.len()
            &&& after.merged == state.merged + 1
            &&& after.layers[at].experts.drop_last() == state.layers[at].experts
            &&& added.layer_id == entry.layer_id
            &&& added.expert_id == entry.expert_id
            &&& added.disk_offset == 0
            &&& added.disk_bytes == entry.disk_bytes
            &&& added.payload_bytes == entry.payload_bytes
            &&& added.dequant_bytes == entry.dequant_bytes
            &&& added.checksum == entry.checksum
            &&& entry.quant_format != 0 ==> added.quant_format == entry.quant_format
            &&& after.shards.contains_key((entry.layer_id, entry.expert_id))
            &&& forall|other: int|
                0 <= other < state.layers.len() && other != at
                    ==> #[trigger] after.layers[other] == state.layers[other]
        }),
{
    let after = state.with_expert(entry, at);
    assert(after.layers[at].experts.drop_last() =~= state.layers[at].experts);
}

/// A pack lists an expert exactly where its index has an entry for it, and with
/// the range of the last such entry; ranges start on pages of two megabytes.
pub proof fn law_packs_repeat_their_index(
    entries: Seq<ExpertPackEntryDisk>,
    n: int,
    pair: (u32, u32),
)
    requires
        0 <= n <= entries.len(),
    ensures
        pack_entries(entries, n) matches Ok(pack) ==> {
            &&& pack.contains_key(pair) == exists|i: int|
                0 <= i < n && (#[trigger] entries[i]).layer_id == pair.0 && entries[i].expert_id
                    == pair.1
            &&& pack.contains_key(pair) ==> exists|i: int|
                {
                    &&& 0 <= i < n
                    &&& (#[trigger] entries[i]).layer_id == pair.0
                    &&& entries[i].expert_id == pair.1
                    &&& pack[pair].offset == entries[i].offset
                    &&& pack[pair].disk_bytes == entries[i].disk_bytes
                    &&& pack[pair].payload_bytes == entries[i].payload_bytes
                    &&& entries[i].offset % 0x20_0000 == 0
                    &&& entries[i].disk_bytes % 0x20_0000 == 0
                    &&& forall|j: int|
                        i < j < n ==> (#[trigger] entries[j]).layer_id != pair.0
                            || entries[j].expert_id != pair.1
                }
        },
    decreases n,
{
    if n > 0 {
        law_packs_repeat_their_index(entries, n - 1, pair);
        if pack_entries(entries, n) is Ok {
            let pack = pack_entries(entries, n)->Ok_0;
            let before = pack_entries(entries, n - 1)->Ok_0;
            let entry = entries[n - 1];
            if entry.layer_id == pair.0 && entry.expert_id == pair.1 {
                assert(pack.contains_key(pair));
                assert(entries[n - 1] == entry);
            } else {
                assert(pack.contains_key(pair) == before.contains_key(pair));
                if before.contains_key(pair) {
                    assert(pack[pair] == before[pair]);
                }
            }
        }
    }
}

/// The tables of a manifest stand where its header says, counted from the start of
/// the manifest: 72 bytes for each layer and 56 for each expert.
pub proof fn law_tables_stand_in_the_manifest(header: EngineHeader, manifest: ManifestHeader)
    requires
        header.manifest_offset + manifest.layer_desc_offset <= u64::MAX,
        header.manifest_offset + manifest.expert_desc_offset <= u64::MAX,
        manifest.layer_count <= usize::MAX,
        manifest.expert_count <= usize::MAX,
    ensures
        manifest_spans(header, manifest) matches Ok(spans) ==> {
            &&& manifest.layer_count == header.num_layers
            &&& spans.layers_offset == header.manifest_offset + manifest.layer_desc_offset
            &&& spans.experts_offset == header.manifest_offset + manifest.expert_desc_offset
            &&& spans.layers_bytes == 72 * header.num_layers
            &&& spans.experts_bytes == 56 * manifest.expert_count
        },
{
}

/// Sorting the experts of a layer keeps them all and puts them in the order of
/// their numbers, those with the same number as they were.
pub proof fn law_numbers_put_experts_in_order(experts: Seq<ExpertBlockDescDisk>) -> (places: Seq<
    int,
>)
    ensures
        places.len() == experts.len() == by_number(experts).len(),
        forall|i: int| 0 <= i < experts.len() ==> 0 <= #[trigger] places[i] < experts.len(),
        forall|i: int|
            0 <= i < experts.len() ==> #[trigger] by_number(experts)[i] == experts[places[i]],
        forall|i: int, j: int|
            0 <= i < j < experts.len() ==> {
                let first = #[trigger] places[i];
                let second = #[trigger] places[j];
                experts[first].expert_id < experts[second].expert_id || (experts[first].expert_id
                    == experts[second].expert_id && first < second)
            },
{
    let keys = expert_keys(experts);
    let places = crate::order::law_ranking_arranges(keys);
    assert forall|i: int| 0 <= i < experts.len() implies #[trigger] by_number(experts)[i]
        == experts[places[i]] by {
        assert(ranked(keys)[i] == keys[places[i]]);
    }
    assert forall|i: int, j: int| 0 <= i < j < experts.len() implies ({
        let first = #[trigger] places[i];
        let second = #[trigger] places[j];
        experts[first].expert_id < experts[second].expert_id || (experts[first].expert_id
            == experts[second].expert_id && first < second)
    }) by {
        assert(keys[places[i]].0 == -experts[places[i]].expert_id);
        assert(keys[places[j]].0 == -experts[places[j]].expert_id);
    }
    places
}

/// The first fields of the header of a model as they stand on disk, one behind the
/// other.
pub open spec fn engine_places_bytes(header: EngineHeader) -> Seq<u8> {
    header.magic@ + le32(header.version) + le32(header.endian) + le64(header.file_size) + le64(header.manifest_offset) + le64(header.manifest_size) + le64(header.tokenizer_offset) + le64(header.tokenizer_size) + le64(header.router_metadata_offset)
}

/// The other fields, up to the checksums.
pub open spec fn engine_shape_bytes(header: EngineHeader) -> Seq<u8> {
    le64(header.router_metadata_size) + le32(header.model_family) + le32(header.architecture) + le32(header.num_layers) + le32(header.hidden_size) + le32(header.num_attention_heads) + le32(header.num_kv_heads) + le32(header.experts_per_layer) + le32(header.active_experts_per_token) + le32(header.block_alignment) + le32(header.disk_quant_format) + le64(header.manifest_checksum) + le64(header.file_checksum)
}

/// The header of a model as it stands on disk.
pub open spec fn engine_header_bytes(header: EngineHeader) -> Seq<u8> {
    engine_places_bytes(header) + engine_shape_bytes(header)
}

#[verifier::spinoff_prover]
#[verifier::rlimit(80)]
proof fn lemma_engine_places(header: EngineHeader, before: Seq<u8>, after: Seq<u8>)
    ensures
        engine_places_bytes(header).len() == 64,
        ({
            let s = before + engine_places_bytes(header) + after;
            let at = before.len() as int;
            &&& s.subrange(at, at + 8) == header.magic@
            &&& u32_at(s, at + 8) == header.version
            &&& u32_at(s, at + 12) == header.endian
            &&& u64_at(s, at + 16) == header.file_size
            &&& u64_at(s, at + 24) == header.manifest_offset
            &&& u64_at(s, at + 32) == header.manifest_size
            &&& u64_at(s, at + 40) == header.tokenizer_offset
            &&& u64_at(s, at + 48) == header.tokenizer_size
            &&& u64_at(s, at + 56) == header.router_metadata_offset
        }),
{
    reveal(le32);
    reveal(le64);
    let s = before + engine_places_bytes(header) + after;
    let at = before.len() as int;
    assert(engine_places_bytes(header).len() == 64);
    assert(s.subrange(at, at + 64) =~= engine_places_bytes(header));
    assert(s.subrange(at, at + 8) =~= header.magic@);
    assert(s.subrange(at + 8, at + 12) =~= engine_places_bytes(header).subrange(8, 12));
    assert(engine_places_bytes(header).subrange(8, 12) =~= le32(header.version));
    lemma_u32_at(s, at + 8, header.version);
    assert(s.subrange(at + 12, at + 16) =~= engine_places_bytes(header).subrange(12, 16));
    assert(engine_places_bytes(header).subrange(12, 16) =~= le32(header.endian));
    lemma_u32_at(s, at + 12, header.endian);
    assert(s.subrange(at + 16, at + 24) =~= engine_places_bytes(header).subrange(16, 24));
    assert(engine_places_bytes(header).subrange(16, 24) =~= le64(header.file_size));
    lemma_u64_at(s, at + 16, header.file_size);
    assert(s.subrange(at + 24, at + 32) =~= engine_places_bytes(header).subrange(24, 32));
    assert(engine_places_bytes(header).subrange(24, 32) =~= le64(header.manifest_offset));
    lemma_u64_at(s, at + 24, header.manifest_offset);
    assert(s.subrange(at + 32, at + 40) =~= engine_places_bytes(header).subrange(32, 40));
    assert(engine_places_bytes(header).subrange(32, 40) =~= le64(header.manifest_size));
    lemma_u64_at(s, at + 32, header.manifest_size);
    assert(s.subrange(at + 40, at + 48) =~= engine_places_bytes(header).subrange(40, 48));
    assert(engine_places_bytes(header).subrange(40, 48) =~= le64(header.tokenizer_offset));
    lemma_u64_at(s, at + 40, header.tokenizer_offset);
    assert(s.subrange(at + 48, at + 56) =~= engine_places_bytes(header).subrange(48, 56));
    assert(engine_places_bytes(header).subrange(48, 56) =~= le64(header.tokenizer_size));
    lemma_u64_at(s, at + 48, header.tokenizer_size);
    assert(s.subrange(at + 56, at + 64) =~= engine_places_bytes(header).subrange(56, 64));
    assert(engine_places_bytes(header).subrange(56, 64) =~= le64(header.router_metadata_offset));
    lemma_u64_at(s, at + 56, header.router_metadata_offset);
}

#[verifier::spinoff_prover]
#[verifier::rlimit(80)]
proof fn lemma_engine_shape(header: EngineHeader, before: Seq<u8>, after: Seq<u8>)
    ensures
        engine_shape_bytes(header).len() == 64,
        ({
            let s = before + engine_shape_bytes(header) + after;
            let at = before.len() as int;
            &&& u64_at(s, at + 0) == header.router_metadata_size
            &&& u32_at(s, at + 8) == header.model_family
            &&& u32_at(s, at + 12) == header.architecture
            &&& u32_at(s, at + 16) == header.num_layers
            &&& u32_at(s, at + 20) == header.hidden_size
            &&& u32_at(s, at + 24) == header.num_attention_heads
            &&& u32_at(s, at + 28) == header.num_kv_heads
            &&& u32_at(s, at + 32) == header.experts_per_layer
            &&& u32_at(s, at + 36) == header.active_experts_per_token
            &&& u32_at(s, at + 40) == header.block_alignment
            &&& u32_at(s, at + 44) == header.disk_quant_format
            &&& u64_at(s, at + 48) == header.manifest_checksum
            &&& u64_at(s, at + 56) == header.file_checksum
        }),
{
    reveal(le32);
    reveal(le64);
    let s = before + engine_shape_bytes(header) + after;
    let at = before.len() as int;
    assert(engine_shape_bytes(header).len() == 64);
    assert(s.subrange(at, at + 64) =~= engine_shape_bytes(header));
    assert(s.subrange(at + 0, at + 8) =~= engine_shape_bytes(header).subrange(0, 8));
    assert(engine_shape_bytes(header).subrange(0, 8) =~= le64(header.router_metadata_size));
    lemma_u64_at(s, at + 0, header.router_metadata_size);
    assert(s.subrange(at + 8, at + 12) =~= engine_shape_bytes(header).subrange(8, 12));
    assert(engine_shape_bytes(header).subrange(8, 12) =~= le32(header.model_family));
    lemma_u32_at(s, at + 8, header.model_family);
    assert(s.subrange(at + 12, at + 16) =~= engine_shape_bytes(header).subrange(12, 16));
    assert(engine_shape_bytes(header).subrange(12, 16) =~= le32(header.architecture));
    lemma_u32_at(s, at + 12, header.architecture);
    assert(s.subrange(at + 16, at + 20) =~= engine_shape_bytes(header).subrange(16, 20));
    assert(engine_shape_bytes(header).subrange(16, 20) =~= le32(header.num_layers));
    lemma_u32_at(s, at + 16, header.num_layers);
    assert(s.subrange(at + 20, at + 24) =~= engine_shape_bytes(header).subrange(20, 24));
    assert(engine_shape_bytes(header).subrange(20, 24) =~= le32(header.hidden_size));
    lemma_u32_at(s, at + 20, header.hidden_size);
    assert(s.subrange(at + 24, at + 28) =~= engine_shape_bytes(header).subrange(24, 28));
    assert(engine_shape_bytes(header).subrange(24, 28) =~= le32(header.num_attention_heads));
    lemma_u32_at(s, at + 24, header.num_attention_heads);
    assert(s.subrange(at + 28, at + 32) =~= engine_shape_bytes(header).subrange(28, 32));
    assert(engine_shape_bytes(header).subrange(28, 32) =~= le32(header.num_kv_heads));
    lemma_u32_at(s, at + 28, header.num_kv_heads);
    assert(s.subrange(at + 32, at + 36) =~= engine_shape_bytes(header).subrange(32, 36));
    assert(engine_shape_bytes(header).subrange(32, 36) =~= le32(header.experts_per_layer));
    lemma_u32_at(s, at + 32, header.experts_per_layer);
    assert(s.subrange(at + 36, at + 40) =~= engine_shape_bytes(header).subrange(36, 40));
    assert(engine_shape_bytes(header).subrange(36, 40) =~= le32(header.active_experts_per_token));
    lemma_u32_at(s, at + 36, header.active_experts_per_token);
    assert(s.subrange(at + 40, at + 44) =~= engine_shape_bytes(header).subrange(40, 44));
    assert(engine_shape_bytes(header).subrange(40, 44) =~= le32(header.block_alignment));
    lemma_u32_at(s, at + 40, header.block_alignment);
    assert(s.subrange(at + 44, at + 48) =~= engine_shape_bytes(header).subrange(44, 48));
    assert(engine_shape_bytes(header).subrange(44, 48) =~= le32(header.disk_quant_format));
    lemma_u32_at(s, at + 44, header.disk_quant_format);
    assert(s.subrange(at + 48, at + 56) =~= engine_shape_bytes(header).subrange(48, 56));
    assert(engine_shape_bytes(header).subrange(48, 56) =~= le64(header.manifest_checksum));
    lemma_u64_at(s, at + 48, header.manifest_checksum);
    assert(s.subrange(at + 56, at + 64) =~= engine_shape_bytes(header).subrange(56, 64));
    assert(engine_shape_bytes(header).subrange(56, 64) =~= le64(header.file_checksum));
    lemma_u64_at(s, at + 56, header.file_checksum);
}

/// The header of a model is read back from the start of its file.
pub proof fn law_engine_headers_read_back(header: EngineHeader, after: Seq<u8>)
    ensures
        engine_header_bytes(header).len() == 128,
        ({
            let read = engine_header_of(engine_header_bytes(header) + after);
            read == (EngineHeader { magic: read.magic, ..header }) && read.magic@ == header.magic@
        }),
{
    let first = engine_places_bytes(header);
    let second = engine_shape_bytes(header);
    let s = engine_header_bytes(header) + after;
    lemma_engine_places(header, Seq::empty(), second + after);
    lemma_engine_shape(header, first, after);
    assert(s =~= Seq::<u8>::empty() + first + (second + after));
    assert(s =~= first + second + after);
    assert(header.magic@ == s.subrange(0, 8));
}

/// What `decode_layers` and `decode_experts` return: a record for each 72 and each 56
/// bytes, one behind the other.
pub proof fn law_tables_decode_record_by_record(
    layer: LayerBlockDescDisk,
    expert: ExpertBlockDescDisk,
    before: Seq<u8>,
    after: Seq<u8>,
    table: &[u8],
    layers: Vec<LayerBlockDescDisk>,
    experts: Vec<ExpertBlockDescDisk>,
    i: int,
)
    requires
        call_ensures(decode_layers, (table,), layers),
        call_ensures(decode_experts, (table,), experts),
    ensures
        layers@.len() == table@.len() / 72,
        experts@.len() == table@.len() / 56,
        table@ == before + layer_desc_bytes(layer) + after && before.len() == i * 72 && 0 <= i
            < layers@.len() ==> layers@[i] == layer,
        table@ == before + expert_desc_bytes(expert) + after && before.len() == i * 56 && 0 <= i
            < experts@.len() ==> experts@[i] == expert,
{
    law_layer_records_read_back(layer, before, after);
    law_expert_records_read_back(expert, before, after);
}

} // verus!
