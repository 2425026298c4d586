//! What errors say, as UTF-8 text.

use crate::bytes::{push_bytes, push_decimal};
use crate::compute::error::{ComputeError, DiskQuantFormat};
use crate::compute::expert_cache::ExpertCacheError;
use crate::direct_io::DirectIoError;
use crate::glm_dsa_indexer::IndexerError;
use crate::model_format::{ModelFormatError, SideFile};
use crate::row_index::RowIndexError;
use crate::scheduler::SchedulerError;
use crate::ALIGN_2MB;
use vstd::prelude::*;
use vstd::string::StringSliceAdditionalSpecFns;

verus! {

use crate::bytes::digits_of;
use crate::compute::expert_cache::CacheErrorView;
use crate::row_index::RowErrorView;

/// The digits of a number.
pub open spec fn number(n: u64) -> Seq<u8> {
    digits_of(n as nat)
}

fn said(text: &str) -> (out: Vec<u8>)
    ensures
        out@ == text.spec_bytes(),
{
    let mut out: Vec<u8> = Vec::new();
    push_bytes(&mut out, text.as_bytes());
    proof {
        assert(out@ =~= text.spec_bytes());
    }
    out
}

fn with_bytes(before: Vec<u8>, bytes: &[u8]) -> (out: Vec<u8>)
    ensures
        out@ == before@ + bytes@,
{
    let mut out: Vec<u8> = before;
    push_bytes(&mut out, bytes);
    out
}

fn with_text(before: Vec<u8>, text: &str) -> (out: Vec<u8>)
    ensures
        out@ == before@ + text.spec_bytes(),
{
    with_bytes(before, text.as_bytes())
}

fn with_number(before: Vec<u8>, n: u64) -> (out: Vec<u8>)
    ensures
        out@ == before@ + number(n),
{
    let mut out: Vec<u8> = before;
    push_decimal(&mut out, n);
    out
}

/// The first `n` bytes of a list, with commas between them.
pub open spec fn listed(bytes: Seq<u8>, n: int) -> Seq<u8>
    decreases n,
{
    if n <= 0 {
        Seq::empty()
    } else if n == 1 {
        number(bytes[0] as u64)
    } else {
        listed(bytes, n - 1) + ", ".spec_bytes() + number(bytes[n - 1] as u64)
    }
}

/// A list of bytes in square brackets.
pub open spec fn byte_list(bytes: Seq<u8>) -> Seq<u8> {
    "[".spec_bytes() + listed(bytes, bytes.len() as int) + "]".spec_bytes()
}

fn with_byte_list(before: Vec<u8>, bytes: &[u8]) -> (out: Vec<u8>)
    ensures
        out@ == before@ + byte_list(bytes@),
{
    let ghost start = before@;
    let mut out: Vec<u8> = with_text(before, "[");
    let mut i: usize = 0;
    while i < bytes.len()
        invariant
            i <= bytes@.len(),
            out@ == start + "[".spec_bytes() + listed(bytes@, i as int),
        decreases bytes@.len() - i,
    {
        if i > 0 {
            out = with_text(out, ", ");
        }
        out = with_number(out, bytes[i] as u64);
        i += 1;
        proof {
            assert(out@ =~= start + "[".spec_bytes() + listed(bytes@, i as int));
        }
    }
    out = with_text(out, "]");
    proof {
        assert(out@ =~= start + byte_list(bytes@));
    }
    out
}

/// The name of a weight encoding.
pub open spec fn format_name(format: DiskQuantFormat) -> &'static str {
    match format {
        DiskQuantFormat::Int4Symmetric => "Int4Symmetric",
        DiskQuantFormat::Int4Affine => "Int4Affine",
        DiskQuantFormat::Int8Symmetric => "Int8Symmetric",
    }
}

fn name_of_format(format: DiskQuantFormat) -> (name: &'static str)
    ensures
        name == format_name(format),
{
    match format {
        DiskQuantFormat::Int4Symmetric => "Int4Symmetric",
        DiskQuantFormat::Int4Affine => "Int4Affine",
        DiskQuantFormat::Int8Symmetric => "Int8Symmetric",
    }
}

/// What an error of the compute side says.
pub open spec fn compute_text(error: ComputeError) -> Seq<u8> {
    match error {
        ComputeError::EmptyGroupSize => "quant group_size must be greater than zero".spec_bytes(),
        ComputeError::InvalidQuantBlockMagic(magic) => "invalid ZCBLK magic: ".spec_bytes()
            + byte_list(magic@),
        ComputeError::UnsupportedQuantBlockVersion(version) =>
            "unsupported ZCBLK version: ".spec_bytes() + number(version as u64),
        ComputeError::TruncatedQuantBlock(field) => "truncated ZCBLK field: ".spec_bytes()
            + field.spec_bytes(),
        ComputeError::InvalidQuantBlock(reason) => "invalid ZCBLK: ".spec_bytes()
            + reason.spec_bytes(),
        ComputeError::TensorIndexOutOfRange { index, count } =>
            "tensor index out of range: index=".spec_bytes() + number(index as u64)
            + ", count=".spec_bytes() + number(count as u64),
        ComputeError::InvalidPointer(name) => "invalid null pointer: ".spec_bytes()
            + name.spec_bytes(),
        ComputeError::InvalidShape(name) => "invalid compute shape: ".spec_bytes()
            + name.spec_bytes(),
        ComputeError::OutputTooSmall { required, actual } =>
            "output buffer too small: required=".spec_bytes() + number(required as u64)
            + ", actual=".spec_bytes() + number(actual as u64),
        ComputeError::ScratchTooSmall { required, actual } =>
            "scratch buffer too small: required=".spec_bytes() + number(required as u64)
            + ", actual=".spec_bytes() + number(actual as u64),
        ComputeError::MissingScale { group } => "missing quant scale for group ".spec_bytes()
            + number(group as u64),
        ComputeError::MissingZeroPoint { group } =>
            "missing quant zero point for group ".spec_bytes() + number(group as u64),
        ComputeError::UnsupportedQuantFormat(format) => "unsupported quant format: ".spec_bytes()
            + format_name(format).spec_bytes(),
    }
}

impl ComputeError {
    /// What the error says.
    pub fn message(&self) -> (text: Vec<u8>)
        ensures
            text@ == compute_text(*self),
    {
        match self {
            ComputeError::EmptyGroupSize => said("quant group_size must be greater than zero"),
            ComputeError::InvalidQuantBlockMagic(magic) => with_byte_list(
                said("invalid ZCBLK magic: "),
                magic,
            ),
            ComputeError::UnsupportedQuantBlockVersion(version) => with_number(
                said("unsupported ZCBLK version: "),
                *version as u64,
            ),
            ComputeError::TruncatedQuantBlock(field) => with_text(
                said("truncated ZCBLK field: "),
                field,
            ),
            ComputeError::InvalidQuantBlock(reason) => with_text(said("invalid ZCBLK: "), reason),
            ComputeError::TensorIndexOutOfRange { index, count } => with_number(
                with_text(
                    with_number(said("tensor index out of range: index="), *index as u64),
                    ", count=",
                ),
                *count as u64,
            ),
            ComputeError::InvalidPointer(name) => with_text(said("invalid null pointer: "), name),
            ComputeError::InvalidShape(name) => with_text(said("invalid compute shape: "), name),
            ComputeError::OutputTooSmall { required, actual } => with_number(
                with_text(
                    with_number(said("output buffer too small: required="), *required as u64),
                    ", actual=",
                ),
                *actual as u64,
            ),
            ComputeError::ScratchTooSmall { required, actual } => with_number(
                with_text(
                    with_number(said("scratch buffer too small: required="), *required as u64),
                    ", actual=",
                ),
                *actual as u64,
            ),
            ComputeError::MissingScale { group } => with_number(
                said("missing quant scale for group "),
                *group as u64,
            ),
            ComputeError::MissingZeroPoint { group } => with_number(
                said("missing quant zero point for group "),
                *group as u64,
            ),
            ComputeError::UnsupportedQuantFormat(format) => with_text(
                said("unsupported quant format: "),
                name_of_format(*format),
            ),
        }
    }
}

/// What an error of the expert cache says.
pub open spec fn cache_text(error: CacheErrorView) -> Seq<u8> {
    match error {
        CacheErrorView::InvalidRemoteEndpoint(endpoint) =>
            "invalid expert remote endpoint: ".spec_bytes() + endpoint,
        CacheErrorView::HttpStatus { status, url } => "expert remote returned HTTP ".spec_bytes()
            + number(status as u64) + " for ".spec_bytes() + url,
        CacheErrorView::InvalidHttpResponse(reason) =>
            "invalid expert HTTP response: ".spec_bytes() + reason.spec_bytes(),
        CacheErrorView::MissingRemoteHook { layer_id, expert_id } => "expert ".spec_bytes()
            + number(layer_id as u64) + "/".spec_bytes() + number(expert_id as u64)
            + " is missing locally and no remote fetch hook is configured".spec_bytes(),
    }
}

impl ExpertCacheError {
    /// What the error says.
    pub fn message(&self) -> (text: Vec<u8>)
        ensures
            text@ == cache_text(self@),
    {
        match self {
            ExpertCacheError::InvalidRemoteEndpoint(endpoint) => with_bytes(
                said("invalid expert remote endpoint: "),
                endpoint.as_slice(),
            ),
            ExpertCacheError::HttpStatus { status, url } => with_bytes(
                with_text(
                    with_number(said("expert remote returned HTTP "), *status as u64),
                    " for ",
                ),
                url.as_slice(),
            ),
            ExpertCacheError::InvalidHttpResponse(reason) => with_text(
                said("invalid expert HTTP response: "),
                reason,
            ),
            ExpertCacheError::MissingRemoteHook { layer_id, expert_id } => with_text(
                with_number(
                    with_text(with_number(said("expert "), *layer_id as u64), "/"),
                    *expert_id as u64,
                ),
                " is missing locally and no remote fetch hook is configured",
            ),
        }
    }
}

/// What an error of the indexer says.
pub open spec fn indexer_text(error: IndexerError) -> Seq<u8> {
    match error {
        IndexerError::Shape(message) => "GLM-DSA indexer shape error: ".spec_bytes()
            + message.spec_bytes(),
        IndexerError::EmptyContext => "GLM-DSA indexer context is empty".spec_bytes(),
    }
}

impl IndexerError {
    /// What the error says.
    pub fn message(&self) -> (text: Vec<u8>)
        ensures
            text@ == indexer_text(*self),
    {
        match self {
            IndexerError::Shape(message) => with_text(
                said("GLM-DSA indexer shape error: "),
                message,
            ),
            IndexerError::EmptyContext => said("GLM-DSA indexer context is empty"),
        }
    }
}

/// What an error of a read says.
pub open spec fn io_text(error: DirectIoError) -> Seq<u8> {
    match error {
        DirectIoError::BufferTooSmall { requested, capacity } =>
            "buffer capacity exceeded: requested=".spec_bytes() + number(requested)
            + ", capacity=".spec_bytes() + number(capacity as u64),
        DirectIoError::SubmissionQueueFull => "submission queue is full".spec_bytes(),
        DirectIoError::InvalidBufferCount(count) => "invalid buffer count: ".spec_bytes()
            + number(count as u64),
        DirectIoError::InvalidBufferIndex(index) => "invalid fixed buffer index: ".spec_bytes()
            + number(index as u64),
        DirectIoError::NoFreeBuffer => "no free fixed buffer".spec_bytes(),
        DirectIoError::ShortExternalRead { requested, actual } =>
            "short external read: requested=".spec_bytes() + number(requested)
            + ", actual=".spec_bytes() + number(actual as u64),
        DirectIoError::PackNotRegistered => "I/O error: expert pack file not registered"
            .spec_bytes(),
        DirectIoError::PackNotOpen => "I/O error: expert pack file not open".spec_bytes(),
    }
}

impl DirectIoError {
    /// What the error says.
    pub fn message(&self) -> (text: Vec<u8>)
        ensures
            text@ == io_text(*self),
    {
        match self {
            DirectIoError::BufferTooSmall { requested, capacity } => with_number(
                with_text(
                    with_number(said("buffer capacity exceeded: requested="), *requested),
                    ", capacity=",
                ),
                *capacity as u64,
            ),
            DirectIoError::SubmissionQueueFull => said("submission queue is full"),
            DirectIoError::InvalidBufferCount(count) => with_number(
                said("invalid buffer count: "),
                *count as u64,
            ),
            DirectIoError::InvalidBufferIndex(index) => with_number(
                said("invalid fixed buffer index: "),
                *index as u64,
            ),
            DirectIoError::NoFreeBuffer => said("no free fixed buffer"),
            DirectIoError::ShortExternalRead { requested, actual } => with_number(
                with_text(
                    with_number(said("short external read: requested="), *requested),
                    ", actual=",
                ),
                *actual as u64,
            ),
            DirectIoError::PackNotRegistered => said("I/O error: expert pack file not registered"),
            DirectIoError::PackNotOpen => said("I/O error: expert pack file not open"),
        }
    }
}

/// What an error of the scheduler says.
pub open spec fn scheduler_text(error: SchedulerError) -> Seq<u8> {
    match error {
        SchedulerError::DirectIo(error) => "direct I/O error: ".spec_bytes() + io_text(error),
        SchedulerError::InvalidExpert { layer_id, expert_id } =>
            "invalid expert index: layer=".spec_bytes() + number(layer_id as u64)
            + ", expert=".spec_bytes() + number(expert_id as u64),
    }
}

impl SchedulerError {
    /// What the error says.
    pub fn message(&self) -> (text: Vec<u8>)
        ensures
            text@ == scheduler_text(*self),
    {
        match self {
            SchedulerError::DirectIo(error) => with_bytes(
                said("direct I/O error: "),
                error.message().as_slice(),
            ),
            SchedulerError::InvalidExpert { layer_id, expert_id } => with_number(
                with_text(
                    with_number(said("invalid expert index: layer="), *layer_id as u64),
                    ", expert=",
                ),
                *expert_id as u64,
            ),
        }
    }
}

/// What an error of a model file says.
pub open spec fn model_text(error: ModelFormatError) -> Seq<u8> {
    match error {
        ModelFormatError::InvalidMagic(magic) => "invalid magic: ".spec_bytes() + byte_list(magic@),
        ModelFormatError::UnsupportedVersion(version) => "unsupported version: ".spec_bytes()
            + number(version as u64),
        ModelFormatError::Unaligned { field, value } => "unaligned field ".spec_bytes()
            + field.spec_bytes() + ": value=".spec_bytes() + number(value)
            + ", required=".spec_bytes() + number(ALIGN_2MB),
        ModelFormatError::TruncatedManifest => "manifest is truncated".spec_bytes(),
        ModelFormatError::LayerCountMismatch { header, manifest } =>
            "invalid layer count: header=".spec_bytes() + number(header as u64)
            + ", manifest=".spec_bytes() + number(manifest as u64),
        ModelFormatError::InvalidExpertTable { layer_id } =>
            "invalid expert table for layer ".spec_bytes() + number(layer_id as u64),
        ModelFormatError::UnsupportedFormat(SideFile::ShardMap) =>
            "shard map error: unsupported shard map format".spec_bytes(),
        ModelFormatError::UnsupportedFormat(SideFile::ExpertPack) =>
            "shard map error: unsupported experts pack format".spec_bytes(),
        ModelFormatError::MissingPackFile => "shard map error: experts pack file missing"
            .spec_bytes(),
    }
}

impl ModelFormatError {
    /// What the error says. Which file it speaks of is for the caller to add.
    pub fn message(&self) -> (text: Vec<u8>)
        ensures
            text@ == model_text(*self),
    {
        match self {
            ModelFormatError::InvalidMagic(magic) => with_byte_list(said("invalid magic: "), magic),
            ModelFormatError::UnsupportedVersion(version) => with_number(
                said("unsupported version: "),
                *version as u64,
            ),
            ModelFormatError::Unaligned { field, value } => with_number(
                with_text(
                    with_number(
                        with_text(with_text(said("unaligned field "), field), ": value="),
                        *value,
                    ),
                    ", required=",
                ),
                ALIGN_2MB,
            ),
            ModelFormatError::TruncatedManifest => said("manifest is truncated"),
            ModelFormatError::LayerCountMismatch { header, manifest } => with_number(
                with_text(
                    with_number(said("invalid layer count: header="), *header as u64),
                    ", manifest=",
                ),
                *manifest as u64,
            ),
            ModelFormatError::InvalidExpertTable { layer_id } => with_number(
                said("invalid expert table for layer "),
                *layer_id as u64,
            ),
            ModelFormatError::UnsupportedFormat(file) => match file {
                SideFile::ShardMap => said("shard map error: unsupported shard map format"),
                SideFile::ExpertPack => said("shard map error: unsupported experts pack format"),
            },
            ModelFormatError::MissingPackFile => said("shard map error: experts pack file missing"),
        }
    }
}

/// What an error of a row index says.
pub open spec fn row_text(error: RowErrorView) -> Seq<u8> {
    match error {
        RowErrorView::NotReady(status) => "tensor index status is not ready: ".spec_bytes()
            + vstd::utf8::encode_utf8(status),
        RowErrorView::MissingTensor(name) => "missing tensor: ".spec_bytes()
            + vstd::utf8::encode_utf8(name),
        RowErrorView::NotRowBf16(name) => "tensor is not row-addressable BF16: ".spec_bytes()
            + vstd::utf8::encode_utf8(name),
        RowErrorView::RowOutOfRange { tensor, row, rows } => "row ".spec_bytes() + number(
            row as u64,
        ) + " is outside tensor ".spec_bytes() + vstd::utf8::encode_utf8(tensor)
            + " rows=".spec_bytes() + number(rows as u64),
        RowErrorView::OutputTooSmall { required, actual } =>
            "output too small: required=".spec_bytes() + number(required as u64)
            + ", actual=".spec_bytes() + number(actual as u64),
        RowErrorView::InvalidIndex(reason) => "invalid tensor index: ".spec_bytes()
            + reason.spec_bytes(),
    }
}

impl RowIndexError {
    /// What the error says.
    pub fn message(&self) -> (text: Vec<u8>)
        ensures
            text@ == row_text(self@),
    {
        match self {
            RowIndexError::NotReady(status) => with_text(
                said("tensor index status is not ready: "),
                status.as_str(),
            ),
            RowIndexError::MissingTensor(name) => with_text(said("missing tensor: "), name.as_str()),
            RowIndexError::NotRowBf16(name) => with_text(
                said("tensor is not row-addressable BF16: "),
                name.as_str(),
            ),
            RowIndexError::RowOutOfRange { tensor, row, rows } => with_number(
                with_text(
                    with_text(
                        with_text(with_number(said("row "), *row as u64), " is outside tensor "),
                        tensor.as_str(),
                    ),
                    " rows=",
                ),
                *rows as u64,
            ),
            RowIndexError::OutputTooSmall { required, actual } => with_number(
                with_text(
                    with_number(said("output too small: required="), *required as u64),
                    ", actual=",
                ),
                *actual as u64,
            ),
            RowIndexError::InvalidIndex(reason) => with_text(
                said("invalid tensor index: "),
                reason,
            ),
        }
    }
}

} // verus!
