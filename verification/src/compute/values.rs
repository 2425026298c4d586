//! Small tensors read out as plain values: patterns of single-precision
//! numbers, expert ids, row ranges and the hyper-connection parameters.

use crate::bytes::{
    bytes_end_with, bytes_find, bytes_rfind, load_u16, load_u32, load_u64, parse_decimal, text_of,
};
use crate::compute::error::ComputeError;
use crate::compute::lookup::{
    dims2, first_where, lowered_name_contains, tensor_matrix_shape, MatrixShape,
};
use crate::compute::quant_block::{QuantBlockLayout, QuantTensorLayout, TensorRole};
use vstd::prelude::*;

verus! {

use crate::bytes::{
    decimal, ends_with_bytes, first_match, last_match, u16_at, u32_at, u64_at,
};
use crate::compute::error::{agrees, found_agrees};
use crate::compute::lookup::{matrix_shape, name_contains, name_text, never};
use crate::compute::quant_block::{law_search_finds_the_first, BlockView, TensorView};
use vstd::string::StringSliceAdditionalSpecFns;
use vstd::utf8::valid_utf8;

/// The single-precision pattern of a BF16 number: its sixteen bits on top.
pub open spec fn bf16_bits(raw: u16) -> u32 {
    (raw * 65536) as u32
}

/// The patterns of the first `count` BF16 numbers of `data`.
pub open spec fn bf16_values(data: Seq<u8>, count: int) -> Seq<u32> {
    Seq::new(count as nat, |i: int| bf16_bits(u16_at(data, 2 * i)))
}

/// The patterns of the first `count` single-precision numbers of `data`.
pub open spec fn f32_values(data: Seq<u8>, count: int) -> Seq<u32> {
    Seq::new(count as nat, |i: int| u32_at(data, 4 * i))
}

/// The pattern of a BF16 number.
pub fn bf16_to_f32(raw: u16) -> (bits: u32)
    ensures
        bits == bf16_bits(raw),
{
    (raw as u32) * 65536
}

/// The BF16 number at `index` of a tensor, as a single-precision pattern.
pub open spec fn bf16_value_at(t: TensorView, index: int) -> Result<u32, ComputeError> {
    if 2 * index > usize::MAX {
        Err(ComputeError::InvalidShape("BF16 tensor offset overflow"))
    } else if 2 * index + 2 > t.data.len() {
        Err(ComputeError::InvalidShape("BF16 tensor value out of range"))
    } else {
        Ok(bf16_bits(u16_at(t.data, 2 * index)))
    }
}

/// Reads the BF16 number at `index` of a tensor.
pub fn bf16_tensor_value(tensor: QuantTensorLayout<'_>, index: usize) -> (result: Result<
    u32,
    ComputeError,
>)
    ensures
        result == bf16_value_at(tensor@, index as int),
{
    let offset: usize = match index.checked_mul(2) {
        Some(offset) => offset,
        None => return Err(ComputeError::InvalidShape("BF16 tensor offset overflow")),
    };
    let len: usize = tensor.data.len();
    if len < 2 || offset > len - 2 {
        return Err(ComputeError::InvalidShape("BF16 tensor value out of range"));
    }
    Ok(bf16_to_f32(load_u16(tensor.data, offset)))
}

fn load_f32_values(data: &[u8], count: usize) -> (values: Vec<u32>)
    requires
        4 * count <= data.len(),
    ensures
        values@ == f32_values(data@, count as int),
{
    let mut values: Vec<u32> = Vec::with_capacity(count);
    let mut i: usize = 0;
    while i < count
        invariant
            i <= count,
            4 * count <= data.len(),
            values@ == f32_values(data@, i as int),
        decreases count - i,
    {
        values.push(load_u32(data, i * 4));
        proof {
            assert(values@ =~= f32_values(data@, i + 1));
        }
        i += 1;
    }
    values
}

pub(crate) fn load_bf16_values(data: &[u8], count: usize) -> (values: Vec<u32>)
    requires
        2 * count <= data.len(),
    ensures
        values@ == bf16_values(data@, count as int),
{
    let mut values: Vec<u32> = Vec::with_capacity(count);
    let mut i: usize = 0;
    while i < count
        invariant
            i <= count,
            2 * count <= data.len(),
            values@ == bf16_values(data@, i as int),
        decreases count - i,
    {
        values.push(bf16_to_f32(load_u16(data, i * 2)));
        proof {
            assert(values@ =~= bf16_values(data@, i + 1));
        }
        i += 1;
    }
    values
}

/// The first `count` numbers of a tensor of single-precision or BF16 numbers.
/// `missing` says which tensor is too short.
pub open spec fn aux_values(t: TensorView, count: int, missing: &'static str) -> Result<
    Seq<u32>,
    ComputeError,
> {
    if t.dtype_original == 12 {
        if 4 * count > t.data.len() {
            Err(ComputeError::InvalidShape(missing))
        } else {
            Ok(f32_values(t.data, count))
        }
    } else if 2 * count > t.data.len() {
        Err(ComputeError::InvalidShape("BF16 tensor value out of range"))
    } else {
        Ok(bf16_values(t.data, count))
    }
}

fn read_aux_values(tensor: &QuantTensorLayout<'_>, count: usize, missing: &'static str) -> (result:
    Result<Vec<u32>, ComputeError>)
    ensures
        agrees(result, aux_values(tensor@, count as int, missing)),
{
    if tensor.dtype_original == 12 {
        if tensor.data.len() / 4 < count {
            return Err(ComputeError::InvalidShape(missing));
        }
        Ok(load_f32_values(tensor.data, count))
    } else {
        if tensor.data.len() / 2 < count {
            return Err(ComputeError::InvalidShape("BF16 tensor value out of range"));
        }
        Ok(load_bf16_values(tensor.data, count))
    }
}

/// Accepts vectors of at least `count` single-precision or BF16 numbers whose
/// name has `marker` in it.
pub open spec fn aux_vector(marker: Seq<u8>, count: usize) -> spec_fn(TensorView) -> bool {
    |t: TensorView|
        t.dims.len() == 1 && name_contains(t, marker) && t.dims[0] >= count && (t.dtype_original
            == 11 || t.dtype_original == 12)
}

/// Accepts vectors of the router as `aux_vector` does.
pub open spec fn router_vector(marker: Seq<u8>, count: usize) -> spec_fn(TensorView) -> bool {
    |t: TensorView| t.role() == TensorRole::Router && aux_vector(marker, count)(t)
}

fn is_aux_vector(tensor: &QuantTensorLayout<'_>, marker: &str, count: usize) -> (found: bool)
    ensures
        found == aux_vector(marker.spec_bytes(), count)(tensor@),
{
    if tensor.shape.rank() != 1 || !lowered_name_contains(tensor, marker.as_bytes()) {
        return false;
    }
    match tensor.shape.dim(0) {
        Ok(dim) => dim >= count && (tensor.dtype_original == 11 || tensor.dtype_original == 12),
        Err(_) => false,
    }
}

/// The router's selection bias for `rows` experts.
pub open spec fn router_bias(b: BlockView, rows: usize) -> Result<Option<Seq<u32>>, ComputeError> {
    match b.first(router_vector("bias".spec_bytes(), rows)) {
        Err(error) => Err(error),
        Ok(None) => Ok(None),
        Ok(Some(t)) => match aux_values(t, rows as int, "router bias out of range") {
            Err(error) => Err(error),
            Ok(values) => Ok(Some(values)),
        },
    }
}

/// Reads the router's selection bias for `rows` experts, if the block has one.
pub fn router_bias_values(layout: &QuantBlockLayout<'_>, rows: usize) -> (result: Result<
    Option<Vec<u32>>,
    ComputeError,
>)
    ensures
        found_agrees(result, router_bias(layout@, rows)),
{
    let accepts = |t: &QuantTensorLayout<'_>| -> (taken: bool)
        ensures
            taken == router_vector("bias".spec_bytes(), rows)(t@),
    {
        t.role() == TensorRole::Router && is_aux_vector(t, "bias", rows)
    };
    match first_where(layout, accepts, Ghost(router_vector("bias".spec_bytes(), rows))) {
        Err(error) => Err(error),
        Ok(None) => Ok(None),
        Ok(Some(tensor)) => match read_aux_values(&tensor, rows, "router bias out of range") {
            Ok(values) => Ok(Some(values)),
            Err(error) => Err(error),
        },
    }
}

/// The attention sinks of `heads` heads.
pub open spec fn attention_sink(b: BlockView, heads: usize) -> Result<
    Option<Seq<u32>>,
    ComputeError,
> {
    match b.first(aux_vector("attn_sink".spec_bytes(), heads)) {
        Err(error) => Err(error),
        Ok(None) => Ok(None),
        Ok(Some(t)) => match aux_values(t, heads as int, "attn_sink out of range") {
            Err(error) => Err(error),
            Ok(values) => Ok(Some(values)),
        },
    }
}

/// Reads the attention sinks of `heads` heads, if the block has them.
pub fn attention_sink_values(layout: &QuantBlockLayout<'_>, heads: usize) -> (result: Result<
    Option<Vec<u32>>,
    ComputeError,
>)
    ensures
        found_agrees(result, attention_sink(layout@, heads)),
{
    let accepts = |t: &QuantTensorLayout<'_>| -> (taken: bool)
        ensures
            taken == aux_vector("attn_sink".spec_bytes(), heads)(t@),
    {
        is_aux_vector(t, "attn_sink", heads)
    };
    match first_where(layout, accepts, Ghost(aux_vector("attn_sink".spec_bytes(), heads))) {
        Err(error) => Err(error),
        Ok(None) => Ok(None),
        Ok(Some(tensor)) => match read_aux_values(&tensor, heads, "attn_sink out of range") {
            Ok(values) => Ok(Some(values)),
            Err(error) => Err(error),
        },
    }
}

/// The first `count` numbers of a tensor's data as single-precision patterns,
/// whatever the tensor calls itself.
pub fn read_f32_tensor_values(tensor: &QuantTensorLayout<'_>, count: usize) -> (values: Option<
    Vec<u32>,
>)
    ensures
        match values {
            Some(v) => 4 * count <= tensor@.data.len() && v@ == f32_values(
                tensor@.data,
                count as int,
            ),
            None => 4 * count > tensor@.data.len(),
        },
{
    if tensor.data.len() / 4 < count {
        return None;
    }
    Some(load_f32_values(tensor.data, count))
}

/// The first `count` numbers of a single-precision tensor.
pub open spec fn f32_tensor(t: TensorView, count: int) -> Result<Seq<u32>, ComputeError> {
    if t.dtype_original != 12 {
        Err(ComputeError::InvalidShape("expected fp32 tensor"))
    } else if 4 * count > usize::MAX {
        Err(ComputeError::InvalidShape("fp32 tensor size overflow"))
    } else if 4 * count > t.data.len() {
        Err(ComputeError::InvalidShape("fp32 tensor data too small"))
    } else {
        Ok(f32_values(t.data, count))
    }
}

/// Reads the first `count` numbers of a single-precision tensor.
pub fn f32_tensor_values(tensor: QuantTensorLayout<'_>, count: usize) -> (result: Result<
    Vec<u32>,
    ComputeError,
>)
    ensures
        agrees(result, f32_tensor(tensor@, count as int)),
{
    if tensor.dtype_original != 12 {
        return Err(ComputeError::InvalidShape("expected fp32 tensor"));
    }
    let bytes: usize = match count.checked_mul(4) {
        Some(bytes) => bytes,
        None => return Err(ComputeError::InvalidShape("fp32 tensor size overflow")),
    };
    if tensor.data.len() < bytes {
        return Err(ComputeError::InvalidShape("fp32 tensor data too small"));
    }
    Ok(load_f32_values(tensor.data, count))
}

/// Entry `i` of a row of expert ids, four or eight bytes wide, as written.
pub open spec fn id_field(data: Seq<u8>, start: int, width: int, i: int) -> int {
    if width == 4 {
        u32_at(data, start + 4 * i) as int
    } else {
        u64_at(data, start + 8 * i) as int
    }
}

/// The entry is negative as a two's complement number of its width.
pub open spec fn id_negative(field: int, width: int) -> bool {
    if width == 4 {
        field >= 0x8000_0000
    } else {
        field >= 0x8000_0000_0000_0000
    }
}

/// An entry of a row of `count` expert ids is negative.
pub open spec fn has_negative_id(data: Seq<u8>, start: int, width: int, count: int) -> bool {
    exists|i: int|
        0 <= i < count && id_negative(#[trigger] id_field(data, start, width, i), width)
}

/// The experts that the static table assigns to a token.
pub open spec fn tid2eid_ids(t: TensorView, token_id: u32) -> Result<Seq<u32>, ComputeError> {
    match matrix_shape(t) {
        Err(error) => Err(error),
        Ok(shape) => {
            let width: int = if t.dtype_original == 7 {
                4
            } else {
                8
            };
            let start = (token_id as usize) * (shape.cols * width);
            if t.dtype_original != 7 && t.dtype_original != 9 {
                Err(ComputeError::InvalidShape("tid2eid table has unsupported dtype"))
            } else if token_id as usize >= shape.rows {
                Err(ComputeError::InvalidShape("tid2eid token id out of range"))
            } else if shape.cols * width > usize::MAX {
                Err(ComputeError::InvalidShape("tid2eid row size overflow"))
            } else if start > usize::MAX {
                Err(ComputeError::InvalidShape("tid2eid row offset overflow"))
            } else if start + shape.cols * width > t.data.len() {
                Err(ComputeError::InvalidShape("tid2eid row out of range"))
            } else if has_negative_id(t.data, start, width, shape.cols as int) {
                Err(ComputeError::InvalidShape("tid2eid negative expert id"))
            } else {
                Ok(
                    Seq::new(
                        shape.cols as nat,
                        |i: int| (id_field(t.data, start, width, i) % 0x1_0000_0000) as u32,
                    ),
                )
            }
        },
    }
}

/// Reads the experts that the static table assigns to a token. The table has
/// one row per token, of 32-bit or 64-bit integers.
pub fn tid2eid_expert_ids(table: QuantTensorLayout<'_>, token_id: u32) -> (result: Result<
    Vec<u32>,
    ComputeError,
>)
    ensures
        agrees(result, tid2eid_ids(table@, token_id)),
{
    let shape: MatrixShape = match tensor_matrix_shape(table) {
        Ok(shape) => shape,
        Err(error) => return Err(error),
    };
    let width: usize = match table.dtype_original {
        7 => 4,
        9 => 8,
        _ => return Err(ComputeError::InvalidShape("tid2eid table has unsupported dtype")),
    };
    let row: usize = token_id as usize;
    if row >= shape.rows {
        return Err(ComputeError::InvalidShape("tid2eid token id out of range"));
    }
    let row_bytes: usize = match shape.cols.checked_mul(width) {
        Some(bytes) => bytes,
        None => return Err(ComputeError::InvalidShape("tid2eid row size overflow")),
    };
    let start: usize = match row.checked_mul(row_bytes) {
        Some(start) => start,
        None => return Err(ComputeError::InvalidShape("tid2eid row offset overflow")),
    };
    let len: usize = table.data.len();
    if row_bytes > len || start > len - row_bytes {
        return Err(ComputeError::InvalidShape("tid2eid row out of range"));
    }
    let top_k: usize = shape.cols;
    let ghost ids_spec = Seq::new(
        top_k as nat,
        |i: int| (id_field(table@.data, start as int, width as int, i) % 0x1_0000_0000) as u32,
    );
    let mut ids: Vec<u32> = Vec::with_capacity(top_k);
    let mut i: usize = 0;
    while i < top_k
        invariant
            i <= top_k,
            width == 4 || width == 8,
            start + top_k * width <= table.data.len(),
            table@.data == table.data@,
            matrix_shape(table@) == Ok::<MatrixShape, ComputeError>(shape),
            shape.cols == top_k,
            width == if table@.dtype_original == 7 {
                4int
            } else {
                8int
            },
            table@.dtype_original == 7 || table@.dtype_original == 9,
            row == token_id as usize,
            row < shape.rows,
            shape.cols * width <= usize::MAX,
            start == row * (shape.cols * width),
            ids@ == ids_spec.take(i as int),
            ids_spec == Seq::new(
                top_k as nat,
                |i: int|
                    (id_field(table@.data, start as int, width as int, i) % 0x1_0000_0000) as u32,
            ),
            forall|j: int|
                0 <= j < i ==> !id_negative(
                    #[trigger] id_field(table@.data, start as int, width as int, j),
                    width as int,
                ),
        decreases top_k - i,
    {
        let ghost field = id_field(table@.data, start as int, width as int, i as int);
        if width == 4 {
            let value: u32 = load_u32(table.data, start + i * 4);
            assert(field == value);
            if value >= 0x8000_0000 {
                assert(has_negative_id(table@.data, start as int, width as int, top_k as int));
                return Err(ComputeError::InvalidShape("tid2eid negative expert id"));
            }
            ids.push(value);
        } else {
            let value: u64 = load_u64(table.data, start + i * 8);
            assert(field == value);
            if value >= 0x8000_0000_0000_0000 {
                assert(has_negative_id(table@.data, start as int, width as int, top_k as int));
                return Err(ComputeError::InvalidShape("tid2eid negative expert id"));
            }
            ids.push((value % 0x1_0000_0000) as u32);
        }
        proof {
            assert(ids@ =~= ids_spec.take(i + 1));
        }
        i += 1;
    }
    proof {
        assert(ids_spec.take(top_k as int) =~= ids_spec);
    }
    Ok(ids)
}

/// The rows of the whole tensor that a shard holds: `name.rows_START_END`, or
/// all rows where the name has no such ending.
pub open spec fn global_row_range(name: Seq<u8>, local_rows: usize) -> Result<
    (usize, usize),
    ComputeError,
> {
    let mark = ".rows_".spec_bytes();
    if !valid_utf8(name) || last_match(name, mark) is None {
        Ok((0, local_rows))
    } else {
        let suffix = name.skip(last_match(name, mark)->0 + mark.len());
        match first_match(suffix, "_".spec_bytes()) {
            None => Err(ComputeError::InvalidShape("tensor row range suffix missing end")),
            Some(at) => {
                let start = decimal(suffix.take(at));
                let end = decimal(suffix.skip(at + "_".spec_bytes().len()));
                if start is None || start->0 > usize::MAX {
                    Err(ComputeError::InvalidShape("tensor row range start invalid"))
                } else if end is None || end->0 > usize::MAX {
                    Err(ComputeError::InvalidShape("tensor row range end invalid"))
                } else if end->0 < start->0 {
                    Err(ComputeError::InvalidShape("tensor row range end before start"))
                } else if end->0 - start->0 != local_rows {
                    Err(ComputeError::InvalidShape("tensor row range does not match rows"))
                } else {
                    Ok((start->0 as usize, end->0 as usize))
                }
            },
        }
    }
}

/// The rows of the whole tensor that a shard of `local_rows` rows holds.
pub fn tensor_global_row_range(tensor: QuantTensorLayout<'_>, local_rows: usize) -> (result: Result<
    (usize, usize),
    ComputeError,
>)
    ensures
        result == global_row_range(tensor@.name, local_rows),
{
    let name: &[u8] = match text_of(tensor.name) {
        Some(text) => text.as_bytes(),
        None => return Ok((0, local_rows)),
    };
    let mark: &[u8] = ".rows_".as_bytes();
    let at: usize = match bytes_rfind(name, mark) {
        Some(at) => at,
        None => return Ok((0, local_rows)),
    };
    let name_len: usize = name.len();
    let suffix: &[u8] = &name[at + mark.len()..name_len];
    proof {
        assert(suffix@ =~= name@.skip(at + mark@.len()));
    }
    let separator: &[u8] = "_".as_bytes();
    let split: usize = match bytes_find(suffix, separator) {
        Some(split) => split,
        None => return Err(ComputeError::InvalidShape("tensor row range suffix missing end")),
    };
    let start_text: &[u8] = &suffix[0..split];
    let end_text: &[u8] = &suffix[split + separator.len()..suffix.len()];
    proof {
        assert(start_text@ =~= suffix@.take(split as int));
        assert(end_text@ =~= suffix@.skip(split + separator@.len()));
    }
    let start: usize = match parse_decimal(start_text, usize::MAX as u64) {
        Some(value) => value as usize,
        None => return Err(ComputeError::InvalidShape("tensor row range start invalid")),
    };
    let end: usize = match parse_decimal(end_text, usize::MAX as u64) {
        Some(value) => value as usize,
        None => return Err(ComputeError::InvalidShape("tensor row range end invalid")),
    };
    if end < start {
        return Err(ComputeError::InvalidShape("tensor row range end before start"));
    }
    if end - start != local_rows {
        return Err(ComputeError::InvalidShape("tensor row range does not match rows"));
    }
    Ok((start, end))
}

/// A shard's row range spans exactly the rows that the shard holds.
pub proof fn law_row_range_spans_local_rows(name: Seq<u8>, local_rows: usize)
    ensures
        global_row_range(name, local_rows) matches Ok(range) ==> range.1 - range.0 == local_rows,
{
}

/// Parameters of one hyper-connection, as they stand in a block. `scale` and
/// `base` are single-precision patterns.
pub struct HcParams<'a> {
    pub fn_data: &'a [u8],
    pub scale: Vec<u32>,
    pub base: Vec<u32>,
    pub mix_hc: usize,
    pub hc_dim: usize,
}

/// What the parameters of one hyper-connection hold.
#[verifier::ext_equal]
pub struct HcView {
    pub fn_data: Seq<u8>,
    pub scale: Seq<u32>,
    pub base: Seq<u32>,
    pub mix_hc: usize,
    pub hc_dim: usize,
}

impl<'a> View for HcParams<'a> {
    type V = HcView;

    open spec fn view(&self) -> HcView {
        HcView {
            fn_data: self.fn_data@,
            scale: self.scale@,
            base: self.base@,
            mix_hc: self.mix_hc,
            hc_dim: self.hc_dim,
        }
    }
}

/// Accepts tensors whose name, as text, ends with `suffix` and with none of
/// `earlier`.
pub open spec fn text_suffix(suffix: Seq<u8>, earlier: Seq<Seq<u8>>) -> spec_fn(TensorView) -> bool {
    |t: TensorView|
        ends_with_bytes(name_text(t.name), suffix) && (forall|i: int|
            0 <= i < earlier.len() ==> !ends_with_bytes(name_text(t.name), #[trigger] earlier[i]))
}

impl BlockView {
    /// The last tensor before `n` that `wanted` accepts.
    pub open spec fn last_before(self, n: int, wanted: spec_fn(TensorView) -> bool) -> Option<
        TensorView,
    >
        decreases n,
    {
        if n <= 0 {
            None
        } else {
            match self.tensor(n - 1) {
                Ok(tensor) => if wanted(tensor) {
                    Some(tensor)
                } else {
                    self.last_before(n - 1, wanted)
                },
                Err(_) => self.last_before(n - 1, wanted),
            }
        }
    }
}

/// The parameters that the three tensors of a hyper-connection hold.
pub open spec fn hc_of(fn_tensor: TensorView, scale: TensorView, base: TensorView) -> Result<
    Option<HcView>,
    ComputeError,
> {
    let mix_hc = fn_tensor.dims[0];
    let hc_dim = fn_tensor.dims[1];
    if fn_tensor.dims.len() != 2 {
        Err(ComputeError::InvalidShape("hc fn tensor rank"))
    } else if scale.dims.len() == 0 {
        Err(ComputeError::InvalidQuantBlock("shape dim index out of range"))
    } else {
        match f32_tensor(base, mix_hc as int) {
            Err(error) => Err(error),
            Ok(base_values) => match f32_tensor(scale, scale.dims[0] as int) {
                Err(error) => Err(error),
                Ok(scale_values) => if fn_tensor.dtype_original != 12 {
                    Err(ComputeError::InvalidShape("hc fn tensor is not fp32"))
                } else if mix_hc * hc_dim > usize::MAX || mix_hc * hc_dim * 4 > usize::MAX {
                    Err(ComputeError::InvalidShape("hc fn size overflow"))
                } else if mix_hc * hc_dim * 4 > fn_tensor.data.len() {
                    Err(ComputeError::InvalidShape("hc fn data too small"))
                } else {
                    Ok(
                        Some(
                            HcView {
                                fn_data: fn_tensor.data.take(mix_hc * hc_dim * 4),
                                scale: scale_values,
                                base: base_values,
                                mix_hc,
                                hc_dim,
                            },
                        ),
                    )
                },
            },
        }
    }
}

/// The parameters of the hyper-connection `prefix`: the last tensors whose
/// names end with `prefix_fn`, `prefix_scale` and `prefix_base`.
pub open spec fn hc_in(b: BlockView, prefix: Seq<u8>) -> Result<Option<HcView>, ComputeError> {
    let fn_suffix = prefix + "_fn".spec_bytes();
    let scale_suffix = prefix + "_scale".spec_bytes();
    let base_suffix = prefix + "_base".spec_bytes();
    let n = b.count() as int;
    match b.unreadable() {
        Some(error) => Err(error),
        None => match (
            b.last_before(n, text_suffix(fn_suffix, seq![])),
            b.last_before(n, text_suffix(scale_suffix, seq![fn_suffix])),
            b.last_before(n, text_suffix(base_suffix, seq![fn_suffix, scale_suffix])),
        ) {
            (Some(fn_tensor), Some(scale), Some(base)) => hc_of(fn_tensor, scale, base),
            _ => Ok(None),
        },
    }
}

fn joined(prefix: &str, suffix: &str) -> (text: Vec<u8>)
    ensures
        text@ == prefix.spec_bytes() + suffix.spec_bytes(),
{
    let mut text: Vec<u8> = Vec::new();
    text.extend_from_slice(prefix.as_bytes());
    text.extend_from_slice(suffix.as_bytes());
    proof {
        assert(text@ =~= prefix.spec_bytes() + suffix.spec_bytes());
    }
    text
}

fn text_ends_with(tensor: &QuantTensorLayout<'_>, suffix: &[u8]) -> (found: bool)
    ensures
        found == ends_with_bytes(name_text(tensor@.name), suffix@),
{
    match text_of(tensor.name) {
        Some(text) => bytes_end_with(text.as_bytes(), suffix),
        None => {
            let empty: Vec<u8> = Vec::new();
            proof {
                assert(empty@ =~= Seq::<u8>::empty());
            }
            bytes_end_with(&empty, suffix)
        },
    }
}

spec fn option_view(tensor: Option<QuantTensorLayout<'_>>) -> Option<TensorView> {
    match tensor {
        Some(tensor) => Some(tensor@),
        None => None,
    }
}

/// Reads the parameters of the hyper-connection `prefix`, if the block has all
/// three tensors.
pub fn hc_params_from_layout<'a>(layout: &QuantBlockLayout<'a>, prefix: &str) -> (result: Result<
    Option<HcParams<'a>>,
    ComputeError,
>)
    ensures
        found_agrees(result, hc_in(layout@, prefix.spec_bytes())),
{
    let fn_suffix: Vec<u8> = joined(prefix, "_fn");
    let scale_suffix: Vec<u8> = joined(prefix, "_scale");
    let base_suffix: Vec<u8> = joined(prefix, "_base");
    let ghost wants_fn = text_suffix(fn_suffix@, seq![]);
    let ghost wants_scale = text_suffix(scale_suffix@, seq![fn_suffix@]);
    let ghost wants_base = text_suffix(base_suffix@, seq![fn_suffix@, scale_suffix@]);
    let mut fn_found: Option<QuantTensorLayout<'a>> = None;
    let mut scale_found: Option<QuantTensorLayout<'a>> = None;
    let mut base_found: Option<QuantTensorLayout<'a>> = None;
    let count: usize = layout.tensor_count();
    let mut index: usize = 0;
    while index < count
        invariant
            count == layout@.count(),
            index <= count,
            fn_suffix@ == prefix.spec_bytes() + "_fn".spec_bytes(),
            wants_fn == text_suffix(fn_suffix@, seq![]),
            wants_scale == text_suffix(scale_suffix@, seq![fn_suffix@]),
            wants_base == text_suffix(base_suffix@, seq![fn_suffix@, scale_suffix@]),
            option_view(fn_found) == layout@.last_before(index as int, wants_fn),
            option_view(scale_found) == layout@.last_before(index as int, wants_scale),
            option_view(base_found) == layout@.last_before(index as int, wants_base),
            layout@.first(never()) == layout@.first_from(index as int, never()),
        decreases count - index,
    {
        let tensor = match layout.tensor(index) {
            Ok(tensor) => tensor,
            Err(error) => return Err(error),
        };
        assert(layout@.tensor(index as int) == Ok::<TensorView, ComputeError>(tensor@));
        proof {
            let none: Seq<Seq<u8>> = seq![];
            let one = seq![fn_suffix@];
            let two = seq![fn_suffix@, scale_suffix@];
            assert(one[0] == fn_suffix@);
            assert(two[0] == fn_suffix@ && two[1] == scale_suffix@);
        }
        if text_ends_with(&tensor, &fn_suffix) {
            fn_found = Some(tensor);
        } else if text_ends_with(&tensor, &scale_suffix) {
            scale_found = Some(tensor);
        } else if text_ends_with(&tensor, &base_suffix) {
            base_found = Some(tensor);
        }
        index += 1;
    }
    match (fn_found, scale_found, base_found) {
        (Some(fn_tensor), Some(scale_tensor), Some(base_tensor)) => read_hc_params(
            fn_tensor,
            scale_tensor,
            base_tensor,
        ),
        _ => Ok(None),
    }
}

fn read_hc_params<'a>(
    fn_tensor: QuantTensorLayout<'a>,
    scale_tensor: QuantTensorLayout<'a>,
    base_tensor: QuantTensorLayout<'a>,
) -> (result: Result<Option<HcParams<'a>>, ComputeError>)
    ensures
        found_agrees(result, hc_of(fn_tensor@, scale_tensor@, base_tensor@)),
{
    if fn_tensor.shape.rank() != 2 {
        return Err(ComputeError::InvalidShape("hc fn tensor rank"));
    }
    let (mix_hc, hc_dim): (usize, usize) = dims2(&fn_tensor);
    let scale_len: usize = match scale_tensor.shape.dim(0) {
        Ok(len) => len,
        Err(error) => return Err(error),
    };
    let base: Vec<u32> = match f32_tensor_values(base_tensor, mix_hc) {
        Ok(values) => values,
        Err(error) => return Err(error),
    };
    let scale: Vec<u32> = match f32_tensor_values(scale_tensor, scale_len) {
        Ok(values) => values,
        Err(error) => return Err(error),
    };
    if fn_tensor.dtype_original != 12 {
        return Err(ComputeError::InvalidShape("hc fn tensor is not fp32"));
    }
    let elements: usize = match mix_hc.checked_mul(hc_dim) {
        Some(elements) => elements,
        None => return Err(ComputeError::InvalidShape("hc fn size overflow")),
    };
    let fn_bytes: usize = match elements.checked_mul(4) {
        Some(bytes) => bytes,
        None => return Err(ComputeError::InvalidShape("hc fn size overflow")),
    };
    if fn_tensor.data.len() < fn_bytes {
        return Err(ComputeError::InvalidShape("hc fn data too small"));
    }
    let fn_data: &'a [u8] = &fn_tensor.data[0..fn_bytes];
    proof {
        assert(fn_data@ =~= fn_tensor@.data.take(mix_hc * hc_dim * 4));
    }
    Ok(Some(HcParams { fn_data, scale, base, mix_hc, hc_dim }))
}

/// A short number is the upper half of the number that it stands for, and
/// numbers stand one behind the other, lowest byte first.
pub proof fn law_values_stand_in_order(data: Seq<u8>, count: int, i: int)
    requires
        0 <= i < count,
    ensures
        bf16_values(data, count).len() == count,
        bf16_values(data, count)[i] as int == 0x1_0000 * data[2 * i] + 0x100_0000 * data[2 * i + 1],
        f32_values(data, count).len() == count,
        f32_values(data, count)[i] as int == data[4 * i] + 0x100 * data[4 * i + 1] + 0x1_0000
            * data[4 * i + 2] + 0x100_0000 * data[4 * i + 3],
{
}

/// One value of a tensor of short numbers is the one that all of them have at
/// that place.
pub proof fn law_one_value_is_one_of_all(t: TensorView, count: int, i: int)
    requires
        0 <= i < count,
        2 * count <= t.data.len(),
        2 * count <= usize::MAX,
    ensures
        bf16_value_at(t, i) == Ok::<u32, ComputeError>(bf16_values(t.data, count)[i]),
{
}

/// Where entry `i` of row `row` of a matrix stands, with `width` bytes to each.
pub open spec fn row_entry(t: TensorView, row: int, width: int, i: int) -> int {
    row * (t.dims[1] * width) + width * i
}

/// The row of a token in the static table is the `token_id`-th run of as many
/// numbers as the table has columns, each of 4 or of 8 bytes; what is read of
/// each is its lower 4 bytes, and a row with a negative number is refused.
pub proof fn law_table_rows_are_read_in_place(t: TensorView, token_id: u32, i: int)
    requires
        t.dims.len() == 2,
        token_id <= usize::MAX,
        0 <= i < t.dims[1],
    ensures
        tid2eid_ids(t, token_id) matches Ok(ids) ==> {
            &&& t.dtype_original == 7 || t.dtype_original == 9
            &&& token_id < t.dims[0]
            &&& ids.len() == t.dims[1]
            &&& t.dtype_original == 7 ==> {
                let at = row_entry(t, token_id as int, 4, i);
                &&& 0 <= at
                &&& at + 4 <= t.data.len()
                &&& ids[i] == u32_at(t.data, at)
                &&& t.data[at + 3] < 0x80
            }
            &&& t.dtype_original == 9 ==> {
                let at = row_entry(t, token_id as int, 8, i);
                &&& 0 <= at
                &&& at + 8 <= t.data.len()
                &&& ids[i] == u32_at(t.data, at)
                &&& t.data[at + 7] < 0x80
            }
        },
{
    let width = if t.dtype_original == 7 {
        4int
    } else {
        8int
    };
    let cols = t.dims[1] as int;
    let start = token_id * (cols * width);
    assert(start >= 0) by (nonlinear_arith)
        requires
            start == token_id * (cols * width),
            cols >= 0,
            width >= 0,
    ;
    assert(width * i + width <= cols * width) by (nonlinear_arith)
        requires
            0 <= i < cols,
            width > 0,
    ;
    assert(0 <= width * i) by (nonlinear_arith)
        requires
            0 <= i,
            width > 0,
    ;
    assert(row_entry(t, token_id as int, width, i) == start + width * i);
    let field = id_field(t.data, start, width, i);
    if tid2eid_ids(t, token_id) is Ok {
        assert(!id_negative(field, width));
    }
}

/// The bias of the router is its first vector whose name speaks of a bias, and
/// the sinks of attention are the first vector whose name speaks of them: one
/// number for each expert or head, as the tensor has them.
pub proof fn law_named_vectors_are_read(b: BlockView, count: usize)
    ensures
        router_bias(b, count) matches Ok(Some(values)) ==> values.len() == count && exists|i: int|
            0 <= i < b.count() && (#[trigger] b.tensor(i) matches Ok(t) && {
                &&& t.role() == TensorRole::Router
                &&& t.dims.len() == 1
                &&& t.dims[0] >= count
                &&& name_contains(t, "bias".spec_bytes())
                &&& t.dtype_original == 12 ==> values == f32_values(t.data, count as int)
                &&& t.dtype_original == 11 ==> values == bf16_values(t.data, count as int)
                &&& t.dtype_original == 11 || t.dtype_original == 12
                &&& b.passes_over(i, router_vector("bias".spec_bytes(), count))
            }),
        router_bias(b, count) matches Ok(None) ==> b.passes_over(
            b.count() as int,
            router_vector("bias".spec_bytes(), count),
        ),
        attention_sink(b, count) matches Ok(Some(values)) ==> values.len() == count && exists|
            i: int,
        |
            0 <= i < b.count() && (#[trigger] b.tensor(i) matches Ok(t) && {
                &&& t.dims.len() == 1
                &&& t.dims[0] >= count
                &&& name_contains(t, "attn_sink".spec_bytes())
                &&& t.dtype_original == 12 ==> values == f32_values(t.data, count as int)
                &&& t.dtype_original == 11 ==> values == bf16_values(t.data, count as int)
                &&& t.dtype_original == 11 || t.dtype_original == 12
                &&& b.passes_over(i, aux_vector("attn_sink".spec_bytes(), count))
            }),
        attention_sink(b, count) matches Ok(None) ==> b.passes_over(
            b.count() as int,
            aux_vector("attn_sink".spec_bytes(), count),
        ),
{
    law_search_finds_the_first(b, router_vector("bias".spec_bytes(), count));
    law_search_finds_the_first(b, aux_vector("attn_sink".spec_bytes(), count));
}

/// A search from the back gives the last tensor that is wanted.
pub proof fn law_search_from_the_back(b: BlockView, n: int, wanted: spec_fn(TensorView) -> bool)
    ensures
        match b.last_before(n, wanted) {
            Some(t) => exists|i: int|
                0 <= i < n && #[trigger] b.tensor(i) == Ok::<TensorView, ComputeError>(t) && wanted(
                    t,
                ) && forall|j: int|
                    i < j < n ==> !((#[trigger] b.tensor(j)) is Ok && wanted(b.tensor(j)->Ok_0)),
            None => forall|j: int|
                0 <= j < n ==> !((#[trigger] b.tensor(j)) is Ok && wanted(b.tensor(j)->Ok_0)),
        },
    decreases n,
{
    if n > 0 {
        let last = b.tensor(n - 1);
        if !(last is Ok && wanted(last->Ok_0)) {
            law_search_from_the_back(b, n - 1, wanted);
        }
    }
}

/// What `tid2eid_expert_ids` returns: one expert for each column, read from the row
/// of the token.
pub proof fn law_tid2eid_expert_ids(
    table: QuantTensorLayout<'_>,
    token_id: u32,
    ids: Vec<u32>,
    i: int,
)
    requires
        table@.dims.len() == 2,
        token_id <= usize::MAX,
        0 <= i < table@.dims[1],
        call_ensures(
            tid2eid_expert_ids,
            (table, token_id),
            Ok::<Vec<u32>, ComputeError>(ids),
        ),
    ensures
        ids@.len() == table@.dims[1],
        table@.dtype_original == 7 ==> ids@[i] == u32_at(
            table@.data,
            row_entry(table@, token_id as int, 4, i),
        ),
        table@.dtype_original == 9 ==> ids@[i] == u32_at(
            table@.data,
            row_entry(table@, token_id as int, 8, i),
        ),
{
    law_table_rows_are_read_in_place(table@, token_id, i);
}

} // verus!
