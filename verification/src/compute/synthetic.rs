//! Building a block in memory from loose tensors.

use crate::bytes::{bytes_contain, bytes_end_with, bytes_to_lower, push_u16, push_u32, push_u64};
use crate::compute::quant_block::TensorRole;
use crate::model_format::{
    QUANT_BLOCK_HEADER_SIZE, QUANT_BLOCK_MAGIC, QUANT_BLOCK_VERSION, QUANT_TENSOR_RECORD_SIZE,
};
use vstd::prelude::*;

verus! {

use crate::bytes::{
    contains_bytes, ends_with_bytes, le16, le32, le64, lower_bytes, u16_at, u32_at, u64_at,
    lemma_u16_at, lemma_u32_at, lemma_u64_at,
};
use crate::compute::quant_block::{
    code_of_role, name_blob, parsed_block, shape_blob, BlockView, QuantBlockHeader, TensorView,
};
use crate::compute::error::ComputeError;
use vstd::string::StringSliceAdditionalSpecFns;

broadcast use {
    crate::bytes::lemma_le16_len,
    crate::bytes::lemma_le32_len,
    crate::bytes::lemma_le64_len,
};

/// One tensor of a block that is built in memory. `scale_bits` and
/// `zero_point_bits` are IEEE 754 bit patterns.
pub struct SyntheticTensor<'a> {
    pub name: &'a str,
    pub role_code: u32,
    pub shape: &'a [u64],
    pub data: &'a [u8],
    pub dtype_original: u16,
    pub quant_format: u16,
    pub scale_bits: u32,
    pub zero_point_bits: u32,
}

/// What goes into a block for one tensor.
#[verifier::ext_equal]
pub struct TensorSource {
    pub name: Seq<u8>,
    pub role_code: u32,
    pub shape: Seq<u64>,
    pub data: Seq<u8>,
    pub dtype_original: u16,
    pub quant_format: u16,
    pub scale_bits: u32,
    pub zero_point_bits: u32,
}

impl<'a> View for SyntheticTensor<'a> {
    type V = TensorSource;

    open spec fn view(&self) -> TensorSource {
        TensorSource {
            name: self.name.spec_bytes(),
            role_code: self.role_code,
            shape: self.shape@,
            data: self.data@,
            dtype_original: self.dtype_original,
            quant_format: self.quant_format,
            scale_bits: self.scale_bits,
            zero_point_bits: self.zero_point_bits,
        }
    }
}

/// The sources of a list of tensors.
pub open spec fn sources(tensors: Seq<SyntheticTensor<'_>>) -> Seq<TensorSource> {
    tensors.map_values(|t: SyntheticTensor<'_>| t@)
}

/// The names of the first `n` tensors, each after its `u16` length.
pub open spec fn names_bytes(ts: Seq<TensorSource>, n: int) -> Seq<u8>
    decreases n,
{
    if n <= 0 {
        seq![]
    } else {
        names_bytes(ts, n - 1) + le16(ts[n - 1].name.len() as u16) + ts[n - 1].name
    }
}

/// The first `n` dimensions, eight bytes each.
pub open spec fn dims_bytes(shape: Seq<u64>, n: int) -> Seq<u8>
    decreases n,
{
    if n <= 0 {
        seq![]
    } else {
        dims_bytes(shape, n - 1) + le64(shape[n - 1])
    }
}

/// The data and shapes of the first `n` tensors.
pub open spec fn payload_bytes(ts: Seq<TensorSource>, n: int) -> Seq<u8>
    decreases n,
{
    if n <= 0 {
        seq![]
    } else {
        payload_bytes(ts, n - 1) + ts[n - 1].data + le32(ts[n - 1].shape.len() as u32)
            + dims_bytes(ts[n - 1].shape, ts[n - 1].shape.len() as int)
    }
}

/// Where the names begin.
pub open spec fn names_start(ts: Seq<TensorSource>) -> int {
    QUANT_BLOCK_HEADER_SIZE + ts.len() * QUANT_TENSOR_RECORD_SIZE
}

/// Where the data of tensor `i` begins.
pub open spec fn data_start(ts: Seq<TensorSource>, i: int) -> int {
    names_start(ts) + names_bytes(ts, ts.len() as int).len() + payload_bytes(ts, i).len()
}

/// The record of tensor `i`.
pub open spec fn record_bytes(ts: Seq<TensorSource>, i: int) -> Seq<u8> {
    le16(ts[i].dtype_original) + le16(ts[i].quant_format) + le32(ts[i].shape.len() as u32) + le32(
        ts[i].role_code,
    ) + le64(names_bytes(ts, i).len() as u64) + le64(
        (data_start(ts, i) + ts[i].data.len()) as u64,
    ) + le64(data_start(ts, i) as u64) + le64(ts[i].data.len() as u64) + le32(ts[i].scale_bits)
        + le32(ts[i].zero_point_bits)
}

/// The records of the first `n` tensors.
pub open spec fn records_bytes(ts: Seq<TensorSource>, n: int) -> Seq<u8>
    decreases n,
{
    if n <= 0 {
        seq![]
    } else {
        records_bytes(ts, n - 1) + record_bytes(ts, n - 1)
    }
}

/// The header of the block.
pub open spec fn header_bytes(ts: Seq<TensorSource>) -> Seq<u8> {
    QUANT_BLOCK_MAGIC@ + le32(QUANT_BLOCK_VERSION) + le32(ts.len() as u32) + le32(4) + le32(0)
        + le64(QUANT_BLOCK_HEADER_SIZE as u64) + le64(names_start(ts) as u64)
}

/// The whole block.
pub open spec fn block_bytes(ts: Seq<TensorSource>) -> Seq<u8> {
    header_bytes(ts) + records_bytes(ts, ts.len() as int) + names_bytes(ts, ts.len() as int)
        + payload_bytes(ts, ts.len() as int)
}

/// Length of the whole block.
pub open spec fn block_len(ts: Seq<TensorSource>) -> int {
    data_start(ts, ts.len() as int)
}

proof fn lemma_lens(ts: Seq<TensorSource>, i: int, n: int)
    requires
        0 <= i <= n <= ts.len(),
    ensures
        names_bytes(ts, i).len() <= names_bytes(ts, n).len(),
        payload_bytes(ts, i).len() <= payload_bytes(ts, n).len(),
        i < n ==> payload_bytes(ts, i).len() + ts[i].data.len() + 4 + 8 * ts[i].shape.len()
            <= payload_bytes(ts, n).len(),
        i < n ==> names_bytes(ts, i).len() + 2 + ts[i].name.len() <= names_bytes(ts, n).len(),
    decreases n,
{
    if i < n {
        lemma_lens(ts, i, n - 1);
        lemma_dims_len(ts[n - 1].shape, ts[n - 1].shape.len() as int);
    }
}

proof fn lemma_dims_len(shape: Seq<u64>, n: int)
    requires
        0 <= n,
    ensures
        dims_bytes(shape, n).len() == 8 * n,
    decreases n,
{
    if n > 0 {
        lemma_dims_len(shape, n - 1);
    }
}

/// Builds a block in memory, so that loose tensors can be read like those of a
/// block on disk.
pub fn build_synthetic_quant_block(tensors: &[SyntheticTensor<'_>]) -> (block: Vec<u8>)
    requires
        block_len(sources(tensors@)) <= usize::MAX,
    ensures
        block@ == block_bytes(sources(tensors@)),
{
    let ghost ts = sources(tensors@);
    let count: usize = tensors.len();
    proof {
        lemma_lens(ts, 0, count as int);
    }
    let names_offset: usize = QUANT_BLOCK_HEADER_SIZE + count * QUANT_TENSOR_RECORD_SIZE;
    let mut names: Vec<u8> = Vec::new();
    let mut name_offsets: Vec<u64> = Vec::new();
    let mut i: usize = 0;
    while i < count
        invariant
            i <= count,
            count == tensors@.len(),
            ts == sources(tensors@),
            names@ == names_bytes(ts, i as int),
            name_offsets@.len() == i,
            forall|j: int|
                0 <= j < i ==> name_offsets@[j] == #[trigger] names_bytes(ts, j).len() as u64,
        decreases count - i,
    {
        let tensor = &tensors[i];
        assert(ts[i as int] == tensor@);
        name_offsets.push(names.len() as u64);
        let name: &[u8] = tensor.name.as_bytes();
        push_u16(&mut names, name.len() as u16);
        names.extend_from_slice(name);
        i += 1;
    }
    let mut cursor: usize = names_offset + names.len();
    let mut data_offsets: Vec<u64> = Vec::new();
    let mut shape_offsets: Vec<u64> = Vec::new();
    let mut i: usize = 0;
    while i < count
        invariant
            i <= count,
            count == tensors@.len(),
            ts == sources(tensors@),
            block_len(ts) <= usize::MAX,
            cursor == data_start(ts, i as int),
            data_offsets@.len() == i,
            shape_offsets@.len() == i,
            forall|j: int| 0 <= j < i ==> data_offsets@[j] == #[trigger] data_start(ts, j) as u64,
            forall|j: int|
                0 <= j < i ==> shape_offsets@[j] == (#[trigger] data_start(ts, j)
                    + ts[j].data.len()) as u64,
        decreases count - i,
    {
        let tensor = &tensors[i];
        assert(ts[i as int] == tensor@);
        proof {
            lemma_lens(ts, i as int, count as int);
            lemma_dims_len(tensor.shape@, tensor.shape@.len() as int);
        }
        data_offsets.push(cursor as u64);
        cursor = cursor + tensor.data.len();
        shape_offsets.push(cursor as u64);
        cursor = cursor + (4 + tensor.shape.len() * 8);
        i += 1;
    }

    let mut block: Vec<u8> = Vec::with_capacity(cursor);
    block.extend_from_slice(&QUANT_BLOCK_MAGIC);
    push_u32(&mut block, QUANT_BLOCK_VERSION);
    push_u32(&mut block, count as u32);
    push_u32(&mut block, 4);
    push_u32(&mut block, 0);
    push_u64(&mut block, QUANT_BLOCK_HEADER_SIZE as u64);
    push_u64(&mut block, names_offset as u64);
    proof {
        assert(block@ =~= header_bytes(ts) + records_bytes(ts, 0));
    }
    let mut i: usize = 0;
    while i < count
        invariant
            i <= count,
            count == tensors@.len(),
            ts == sources(tensors@),
            name_offsets@.len() == count,
            data_offsets@.len() == count,
            shape_offsets@.len() == count,
            forall|j: int|
                0 <= j < count ==> name_offsets@[j] == #[trigger] names_bytes(ts, j).len() as u64,
            forall|j: int|
                0 <= j < count ==> data_offsets@[j] == #[trigger] data_start(ts, j) as u64,
            forall|j: int|
                0 <= j < count ==> shape_offsets@[j] == (#[trigger] data_start(ts, j)
                    + ts[j].data.len()) as u64,
            block@ == header_bytes(ts) + records_bytes(ts, i as int),
        decreases count - i,
    {
        let tensor = &tensors[i];
        assert(ts[i as int] == tensor@);
        let ghost before = block@;
        push_u16(&mut block, tensor.dtype_original);
        push_u16(&mut block, tensor.quant_format);
        push_u32(&mut block, tensor.shape.len() as u32);
        push_u32(&mut block, tensor.role_code);
        push_u64(&mut block, name_offsets[i]);
        push_u64(&mut block, shape_offsets[i]);
        push_u64(&mut block, data_offsets[i]);
        push_u64(&mut block, tensor.data.len() as u64);
        push_u32(&mut block, tensor.scale_bits);
        push_u32(&mut block, tensor.zero_point_bits);
        proof {
            assert(names_bytes(ts, i as int).len() as u64 == name_offsets@[i as int]);
            assert(data_start(ts, i as int) as u64 == data_offsets@[i as int]);
            assert(block@ =~= before + record_bytes(ts, i as int));
            assert(block@ =~= header_bytes(ts) + records_bytes(ts, i + 1));
        }
        i += 1;
    }
    block.extend_from_slice(&names);
    let ghost front = header_bytes(ts) + records_bytes(ts, count as int) + names@;
    proof {
        assert(block@ =~= front + payload_bytes(ts, 0));
    }
    let mut i: usize = 0;
    while i < count
        invariant
            i <= count,
            count == tensors@.len(),
            ts == sources(tensors@),
            block@ == front + payload_bytes(ts, i as int),
        decreases count - i,
    {
        let tensor = &tensors[i];
        assert(ts[i as int] == tensor@);
        block.extend_from_slice(tensor.data);
        push_u32(&mut block, tensor.shape.len() as u32);
        let ghost before = block@;
        let rank: usize = tensor.shape.len();
        let mut d: usize = 0;
        proof {
            assert(block@ =~= before + dims_bytes(tensor.shape@, 0));
        }
        while d < rank
            invariant
                d <= rank,
                rank == tensor.shape@.len(),
                block@ == before + dims_bytes(tensor.shape@, d as int),
            decreases rank - d,
        {
            push_u64(&mut block, tensor.shape[d]);
            proof {
                assert(block@ =~= before + dims_bytes(tensor.shape@, d + 1));
            }
            d += 1;
        }
        proof {
            assert(block@ =~= front + payload_bytes(ts, i + 1));
        }
        i += 1;
    }
    block
}

/// The block can hold what it is given: lengths fit their fields.
pub open spec fn block_fits(ts: Seq<TensorSource>) -> bool {
    &&& block_len(ts) <= usize::MAX
    &&& ts.len() <= u32::MAX
    &&& forall|i: int|
        0 <= i < ts.len() ==> #[trigger] ts[i].name.len() <= u16::MAX && ts[i].shape.len()
            <= u32::MAX
}

/// What a reader of the block should find for a source.
pub open spec fn tensor_of(source: TensorSource) -> TensorView {
    TensorView {
        dtype_original: source.dtype_original,
        quant_format: source.quant_format,
        rank: source.shape.len() as u32,
        flags: source.role_code,
        name: source.name,
        dims: source.shape.map_values(|d: u64| d as usize),
        data: source.data,
        scale_bits: source.scale_bits,
        zero_point_bits: source.zero_point_bits,
    }
}

/// What a reader of the block should find as the block.
pub open spec fn block_of(ts: Seq<TensorSource>) -> BlockView {
    BlockView {
        bytes: block_bytes(ts),
        header: QuantBlockHeader {
            tensor_count: ts.len() as u32,
            quant_format: 4,
            flags: 0,
            record_table_offset: QUANT_BLOCK_HEADER_SIZE,
            names_offset: names_start(ts) as usize,
        },
    }
}

proof fn lemma_record_len(ts: Seq<TensorSource>, i: int)
    ensures
        record_bytes(ts, i).len() == QUANT_TENSOR_RECORD_SIZE,
{
}

proof fn lemma_record_fields(ts: Seq<TensorSource>, i: int)
    ensures
        u16_at(record_bytes(ts, i), 0) == ts[i].dtype_original,
        u16_at(record_bytes(ts, i), 2) == ts[i].quant_format,
        u32_at(record_bytes(ts, i), 4) == ts[i].shape.len() as u32,
        u32_at(record_bytes(ts, i), 8) == ts[i].role_code,
        u64_at(record_bytes(ts, i), 12) == names_bytes(ts, i).len() as u64,
        u64_at(record_bytes(ts, i), 20) == (data_start(ts, i) + ts[i].data.len()) as u64,
        u64_at(record_bytes(ts, i), 28) == data_start(ts, i) as u64,
        u64_at(record_bytes(ts, i), 36) == ts[i].data.len() as u64,
        u32_at(record_bytes(ts, i), 44) == ts[i].scale_bits,
        u32_at(record_bytes(ts, i), 48) == ts[i].zero_point_bits,
{
    lemma_record_len(ts, i);
    let r = record_bytes(ts, i);
    assert(r.subrange(0, 2) =~= le16(ts[i].dtype_original));
    lemma_u16_at(r, 0, ts[i].dtype_original);
    assert(r.subrange(2, 4) =~= le16(ts[i].quant_format));
    lemma_u16_at(r, 2, ts[i].quant_format);
    assert(r.subrange(4, 8) =~= le32(ts[i].shape.len() as u32));
    lemma_u32_at(r, 4, ts[i].shape.len() as u32);
    assert(r.subrange(8, 12) =~= le32(ts[i].role_code));
    lemma_u32_at(r, 8, ts[i].role_code);
    assert(r.subrange(12, 20) =~= le64(names_bytes(ts, i).len() as u64));
    lemma_u64_at(r, 12, names_bytes(ts, i).len() as u64);
    assert(r.subrange(20, 28) =~= le64((data_start(ts, i) + ts[i].data.len()) as u64));
    lemma_u64_at(r, 20, (data_start(ts, i) + ts[i].data.len()) as u64);
    assert(r.subrange(28, 36) =~= le64(data_start(ts, i) as u64));
    lemma_u64_at(r, 28, data_start(ts, i) as u64);
    assert(r.subrange(36, 44) =~= le64(ts[i].data.len() as u64));
    lemma_u64_at(r, 36, ts[i].data.len() as u64);
    assert(r.subrange(44, 48) =~= le32(ts[i].scale_bits));
    lemma_u32_at(r, 44, ts[i].scale_bits);
    assert(r.subrange(48, 52) =~= le32(ts[i].zero_point_bits));
    lemma_u32_at(r, 48, ts[i].zero_point_bits);
}

proof fn lemma_records(ts: Seq<TensorSource>, i: int, n: int)
    requires
        0 <= i <= n,
    ensures
        records_bytes(ts, n).len() == n * QUANT_TENSOR_RECORD_SIZE,
        i < n ==> records_bytes(ts, n).subrange(
            i * QUANT_TENSOR_RECORD_SIZE,
            (i + 1) * QUANT_TENSOR_RECORD_SIZE,
        ) == record_bytes(ts, i),
    decreases n,
{
    if n > 0 {
        lemma_record_len(ts, n - 1);
        if i < n - 1 {
            lemma_records(ts, i, n - 1);
            assert(records_bytes(ts, n).subrange(
                i * QUANT_TENSOR_RECORD_SIZE,
                (i + 1) * QUANT_TENSOR_RECORD_SIZE,
            ) =~= records_bytes(ts, n - 1).subrange(
                i * QUANT_TENSOR_RECORD_SIZE,
                (i + 1) * QUANT_TENSOR_RECORD_SIZE,
            ));
        } else {
            lemma_records(ts, 0, n - 1);
            if i == n - 1 {
                assert(records_bytes(ts, n).subrange(
                    i * QUANT_TENSOR_RECORD_SIZE,
                    (i + 1) * QUANT_TENSOR_RECORD_SIZE,
                ) =~= record_bytes(ts, i));
            }
        }
    }
}

proof fn lemma_names_prefix(ts: Seq<TensorSource>, i: int, n: int)
    requires
        0 <= i < n <= ts.len(),
    ensures
        names_bytes(ts, i).len() + 2 + ts[i].name.len() <= names_bytes(ts, n).len(),
        names_bytes(ts, n).subrange(
            names_bytes(ts, i).len() as int,
            names_bytes(ts, i).len() as int + 2,
        ) == le16(ts[i].name.len() as u16),
        names_bytes(ts, n).subrange(
            names_bytes(ts, i).len() as int + 2,
            names_bytes(ts, i).len() as int + 2 + ts[i].name.len(),
        ) == ts[i].name,
    decreases n,
{
    let at = names_bytes(ts, i).len() as int;
    let end = at + 2 + ts[i].name.len();
    if i < n - 1 {
        lemma_names_prefix(ts, i, n - 1);
        let shorter = names_bytes(ts, n - 1);
        assert(names_bytes(ts, n).subrange(at, at + 2) =~= shorter.subrange(at, at + 2));
        assert(names_bytes(ts, n).subrange(at + 2, end) =~= shorter.subrange(at + 2, end));
    } else {
        assert(names_bytes(ts, n).subrange(at, at + 2) =~= le16(ts[i].name.len() as u16));
        assert(names_bytes(ts, n).subrange(at + 2, end) =~= ts[i].name);
    }
}

proof fn lemma_dims_at(shape: Seq<u64>, i: int, n: int)
    requires
        0 <= i < n,
    ensures
        dims_bytes(shape, n).len() == 8 * n,
        dims_bytes(shape, n).subrange(8 * i, 8 * i + 8) == le64(shape[i]),
    decreases n,
{
    lemma_dims_len(shape, n);
    lemma_dims_len(shape, n - 1);
    if i < n - 1 {
        lemma_dims_at(shape, i, n - 1);
        assert(dims_bytes(shape, n).subrange(8 * i, 8 * i + 8) =~= dims_bytes(
            shape,
            n - 1,
        ).subrange(8 * i, 8 * i + 8));
    } else {
        assert(dims_bytes(shape, n).subrange(8 * i, 8 * i + 8) =~= le64(shape[i]));
    }
}

proof fn lemma_payload_prefix(ts: Seq<TensorSource>, i: int, n: int)
    requires
        0 <= i < n <= ts.len(),
    ensures
        ({
            let at = payload_bytes(ts, i).len() as int;
            let shape_at = at + ts[i].data.len();
            let end = shape_at + 4 + 8 * ts[i].shape.len();
            &&& end <= payload_bytes(ts, n).len()
            &&& payload_bytes(ts, n).subrange(at, shape_at) == ts[i].data
            &&& payload_bytes(ts, n).subrange(shape_at, shape_at + 4) == le32(
                ts[i].shape.len() as u32,
            )
            &&& payload_bytes(ts, n).subrange(shape_at + 4, end) == dims_bytes(
                ts[i].shape,
                ts[i].shape.len() as int,
            )
        }),
    decreases n,
{
    let at = payload_bytes(ts, i).len() as int;
    let shape_at = at + ts[i].data.len();
    let end = shape_at + 4 + 8 * ts[i].shape.len();
    lemma_dims_len(ts[n - 1].shape, ts[n - 1].shape.len() as int);
    let longer = payload_bytes(ts, n);
    if i < n - 1 {
        lemma_payload_prefix(ts, i, n - 1);
        let shorter = payload_bytes(ts, n - 1);
        assert(longer.subrange(at, shape_at) =~= shorter.subrange(at, shape_at));
        assert(longer.subrange(shape_at, shape_at + 4) =~= shorter.subrange(shape_at, shape_at + 4));
        assert(longer.subrange(shape_at + 4, end) =~= shorter.subrange(shape_at + 4, end));
    } else {
        assert(longer.subrange(at, shape_at) =~= ts[i].data);
        assert(longer.subrange(shape_at, shape_at + 4) =~= le32(ts[i].shape.len() as u32));
        assert(longer.subrange(shape_at + 4, end) =~= dims_bytes(
            ts[i].shape,
            ts[i].shape.len() as int,
        ));
    }
}

proof fn lemma_block_len(ts: Seq<TensorSource>)
    ensures
        header_bytes(ts).len() == QUANT_BLOCK_HEADER_SIZE,
        block_bytes(ts).len() == block_len(ts),
        records_bytes(ts, ts.len() as int).len() == ts.len() * QUANT_TENSOR_RECORD_SIZE,
{
    lemma_records(ts, 0, ts.len() as int);
}

/// A block that was built is accepted by the reader, with the header it was
/// given.
pub proof fn law_built_block_parses(ts: Seq<TensorSource>)
    requires
        block_fits(ts),
    ensures
        parsed_block(block_bytes(ts)) == Ok::<
            BlockView,
            ComputeError,
        >(block_of(ts)),
{
    let s = block_bytes(ts);
    let h = header_bytes(ts);
    lemma_block_len(ts);
    assert(s.subrange(0, 8) =~= QUANT_BLOCK_MAGIC@);
    assert(s.subrange(8, 12) =~= le32(QUANT_BLOCK_VERSION));
    lemma_u32_at(s, 8, QUANT_BLOCK_VERSION);
    assert(s.subrange(12, 16) =~= le32(ts.len() as u32));
    lemma_u32_at(s, 12, ts.len() as u32);
    assert(s.subrange(16, 20) =~= le32(4));
    lemma_u32_at(s, 16, 4);
    assert(s.subrange(20, 24) =~= le32(0));
    lemma_u32_at(s, 20, 0);
    assert(s.subrange(24, 32) =~= le64(QUANT_BLOCK_HEADER_SIZE as u64));
    lemma_u64_at(s, 24, QUANT_BLOCK_HEADER_SIZE as u64);
    assert(s.subrange(32, 40) =~= le64(names_start(ts) as u64));
    lemma_u64_at(s, 32, names_start(ts) as u64);
}

proof fn lemma_block_record(ts: Seq<TensorSource>, i: int)
    requires
        0 <= i < ts.len(),
    ensures
        ({
            let at = QUANT_BLOCK_HEADER_SIZE + i * QUANT_TENSOR_RECORD_SIZE;
            &&& at + QUANT_TENSOR_RECORD_SIZE <= block_bytes(ts).len()
            &&& block_bytes(ts).subrange(at, at + QUANT_TENSOR_RECORD_SIZE) == record_bytes(ts, i)
        }),
{
    let n = ts.len() as int;
    lemma_block_len(ts);
    lemma_records(ts, i, n);
    let at = QUANT_BLOCK_HEADER_SIZE + i * QUANT_TENSOR_RECORD_SIZE;
    assert(block_bytes(ts).subrange(at, at + QUANT_TENSOR_RECORD_SIZE) =~= records_bytes(
        ts,
        n,
    ).subrange(i * QUANT_TENSOR_RECORD_SIZE, (i + 1) * QUANT_TENSOR_RECORD_SIZE));
}

proof fn lemma_block_name(ts: Seq<TensorSource>, i: int)
    requires
        block_fits(ts),
        0 <= i < ts.len(),
    ensures
        name_blob(block_bytes(ts), names_start(ts), names_bytes(ts, i).len() as int) == Ok::<
            Seq<u8>,
            ComputeError,
        >(ts[i].name),
{
    let n = ts.len() as int;
    let s = block_bytes(ts);
    lemma_block_len(ts);
    lemma_names_prefix(ts, i, n);
    let names = names_bytes(ts, n);
    let inner = names_bytes(ts, i).len() as int;
    let at = names_start(ts) + inner;
    let len = ts[i].name.len();
    assert(s.subrange(at, at + 2) =~= names.subrange(inner, inner + 2));
    lemma_u16_at(s, at, len as u16);
    assert(s.subrange(at + 2, at + 2 + len) =~= names.subrange(inner + 2, inner + 2 + len));
}

proof fn lemma_block_payload(ts: Seq<TensorSource>, i: int)
    requires
        block_fits(ts),
        0 <= i < ts.len(),
    ensures
        ({
            let at = data_start(ts, i);
            let shape_at = at + ts[i].data.len();
            let rank = ts[i].shape.len() as int;
            &&& shape_at + 4 + 8 * rank <= block_bytes(ts).len()
            &&& block_bytes(ts).subrange(at, shape_at) == ts[i].data
            &&& block_bytes(ts).subrange(shape_at, shape_at + 4) == le32(rank as u32)
            &&& block_bytes(ts).subrange(shape_at + 4, shape_at + 4 + 8 * rank) == dims_bytes(
                ts[i].shape,
                rank,
            )
        }),
{
    let n = ts.len() as int;
    let s = block_bytes(ts);
    lemma_block_len(ts);
    lemma_payload_prefix(ts, i, n);
    let payload = payload_bytes(ts, n);
    let inner = payload_bytes(ts, i).len() as int;
    let at = data_start(ts, i);
    let data_len = ts[i].data.len() as int;
    let rank = ts[i].shape.len() as int;
    assert(s.subrange(at, at + data_len) =~= payload.subrange(inner, inner + data_len));
    assert(s.subrange(at + data_len, at + data_len + 4) =~= payload.subrange(
        inner + data_len,
        inner + data_len + 4,
    ));
    assert(s.subrange(at + data_len + 4, at + data_len + 4 + 8 * rank) =~= payload.subrange(
        inner + data_len + 4,
        inner + data_len + 4 + 8 * rank,
    ));
}

proof fn lemma_block_shape(s: Seq<u8>, at: int, shape: Seq<u64>)
    requires
        0 <= at,
        shape.len() <= u32::MAX,
        at + 4 + 8 * shape.len() <= s.len() <= usize::MAX,
        s.subrange(at, at + 4) == le32(shape.len() as u32),
        s.subrange(at + 4, at + 4 + 8 * shape.len()) == dims_bytes(shape, shape.len() as int),
    ensures
        shape_blob(s, at, shape.len() as int) == Ok::<Seq<usize>, ComputeError>(
            shape.map_values(|d: u64| d as usize),
        ),
{
    let rank = shape.len() as int;
    lemma_u32_at(s, at, rank as u32);
    let dims = dims_bytes(shape, rank);
    assert forall|d: int| 0 <= d < rank implies u64_at(s, at + 4 + 8 * d) == shape[d] by {
        lemma_dims_at(shape, d, rank);
        assert(s.subrange(at + 4 + 8 * d, at + 4 + 8 * d + 8) =~= dims.subrange(8 * d, 8 * d + 8));
        lemma_u64_at(s, at + 4 + 8 * d, shape[d]);
    }
    let seen = Seq::new(rank as nat, |d: int| u64_at(s, at + 4 + 8 * d) as usize);
    assert(seen =~= shape.map_values(|d: u64| d as usize));
}

proof fn lemma_tensor_from_fields(
    b: BlockView,
    at: int,
    record: Seq<u8>,
    t: TensorView,
    name_offset: int,
    shape_offset: int,
    data_offset: int,
)
    requires
        record == b.bytes.subrange(at, at + QUANT_TENSOR_RECORD_SIZE),
        b.bytes.len() <= usize::MAX,
        0 <= name_offset <= usize::MAX,
        0 <= shape_offset <= usize::MAX,
        0 <= data_offset,
        data_offset + t.data.len() <= b.bytes.len(),
        u16_at(record, 0) == t.dtype_original,
        u16_at(record, 2) == t.quant_format,
        u32_at(record, 4) == t.rank,
        u32_at(record, 8) == t.flags,
        u64_at(record, 12) == name_offset as u64,
        u64_at(record, 20) == shape_offset as u64,
        u64_at(record, 28) == data_offset as u64,
        u64_at(record, 36) == t.data.len() as u64,
        u32_at(record, 44) == t.scale_bits,
        u32_at(record, 48) == t.zero_point_bits,
        name_blob(b.bytes, b.header.names_offset as int, name_offset) == Ok::<
            Seq<u8>,
            ComputeError,
        >(t.name),
        shape_blob(b.bytes, shape_offset, t.rank as usize as int) == Ok::<Seq<usize>, ComputeError>(
            t.dims,
        ),
        b.bytes.subrange(data_offset, data_offset + t.data.len()) == t.data,
    ensures
        b.tensor_at(at) == Ok::<TensorView, ComputeError>(t),
{
}

/// Every tensor that was put into a block comes out of it unchanged.
pub proof fn law_built_block_gives_tensors_back(ts: Seq<TensorSource>, i: int)
    requires
        block_fits(ts),
        0 <= i < ts.len(),
    ensures
        block_of(ts).tensor(i) == Ok::<TensorView, ComputeError>(tensor_of(ts[i])),
{
    let b = block_of(ts);
    let at = QUANT_BLOCK_HEADER_SIZE + i * QUANT_TENSOR_RECORD_SIZE;
    lemma_block_len(ts);
    lemma_block_record(ts, i);
    lemma_record_fields(ts, i);
    lemma_block_name(ts, i);
    lemma_block_payload(ts, i);
    lemma_lens(ts, i, ts.len() as int);
    lemma_block_shape(b.bytes, data_start(ts, i) + ts[i].data.len(), ts[i].shape);
    assert(b.tensor(i) == b.tensor_at(at)) by {
        reveal(BlockView::tensor);
    }
    lemma_tensor_from_fields(
        b,
        at,
        record_bytes(ts, i),
        tensor_of(ts[i]),
        names_bytes(ts, i).len() as int,
        data_start(ts, i) + ts[i].data.len(),
        data_start(ts, i),
    );
}

/// The role code of `name` in the block of a draft layer; `index_role_code`
/// where the name does not decide.
pub open spec fn mtp_role_code(name: Seq<u8>, index_role_code: u16) -> u16 {
    let lowered = lower_bytes(name);
    if contains_bytes(lowered, ".ffn.shared_experts.".spec_bytes()) {
        code_of_role(TensorRole::SharedExpert)
    } else if contains_bytes(lowered, ".ffn.gate.".spec_bytes()) {
        code_of_role(TensorRole::Router)
    } else if ends_with_bytes(lowered, "norm.weight".spec_bytes()) {
        code_of_role(TensorRole::Norm)
    } else if ends_with_bytes(lowered, ".scale".spec_bytes()) {
        index_role_code
    } else if contains_bytes(lowered, ".attn.wq_a.".spec_bytes()) || contains_bytes(
        lowered,
        ".attn.wq_b.".spec_bytes(),
    ) {
        code_of_role(TensorRole::QProj)
    } else if contains_bytes(lowered, ".attn.wkv.".spec_bytes()) {
        code_of_role(TensorRole::KvProj)
    } else if contains_bytes(lowered, ".attn.wo_a.".spec_bytes()) || contains_bytes(
        lowered,
        ".attn.wo_b.".spec_bytes(),
    ) {
        code_of_role(TensorRole::OProj)
    } else {
        index_role_code
    }
}

/// Role code for a tensor of a draft layer's block. The tensor index carries
/// no compute role for most of these tensors, so the role is derived from the
/// name, by the conventions of the main layers.
pub fn mtp_synthetic_role_code(name: &str, index_role_code: u16) -> (code: u16)
    ensures
        code == mtp_role_code(name.spec_bytes(), index_role_code),
{
    let lowered: Vec<u8> = bytes_to_lower(name.as_bytes());
    if bytes_contain(&lowered, ".ffn.shared_experts.".as_bytes()) {
        return TensorRole::SharedExpert.code();
    }
    if bytes_contain(&lowered, ".ffn.gate.".as_bytes()) {
        return TensorRole::Router.code();
    }
    if bytes_end_with(&lowered, "norm.weight".as_bytes()) {
        return TensorRole::Norm.code();
    }
    if bytes_end_with(&lowered, ".scale".as_bytes()) {
        return index_role_code;
    }
    if bytes_contain(&lowered, ".attn.wq_a.".as_bytes()) || bytes_contain(
        &lowered,
        ".attn.wq_b.".as_bytes(),
    ) {
        return TensorRole::QProj.code();
    }
    if bytes_contain(&lowered, ".attn.wkv.".as_bytes()) {
        return TensorRole::KvProj.code();
    }
    if bytes_contain(&lowered, ".attn.wo_a.".as_bytes()) || bytes_contain(
        &lowered,
        ".attn.wo_b.".as_bytes(),
    ) {
        return TensorRole::OProj.code();
    }
    index_role_code
}

} // verus!
