//! The output head: which rows score which tokens, the best of them, and the
//! number of rows.

use crate::compute::config::{larger_of, packed_i4_row_bytes, smaller_of};
use crate::compute::error::ComputeError;
use crate::compute::gemv::check_int4_args;
use crate::compute::lookup::{final_norm_tensor, tensor_matrix_shape, MatrixShape};
use crate::compute::norm::{plan_weighted_rms_norm, NormPlan};
use crate::compute::quant_block::{
    parse_quant_block, QuantBlockLayout, QuantTensorLayout, TensorRole,
};
use crate::compute::values::tensor_global_row_range;
use crate::deepseek_v4::QUANT_DEEPSEEK_BF16_AUX;
use crate::order::{rank_descending, total_order_key};
use vstd::prelude::*;

verus! {

use crate::compute::config::{larger, smaller};
use crate::compute::error::agrees;
use crate::compute::gemv::{int4_error, is_bf16};
use crate::compute::lookup::{is_final_norm, matrix_shape};
use crate::compute::mla::norm_view;
use crate::compute::norm::{norm_of, NormView};
use crate::compute::quant_block::{parsed_block, BlockView, TensorView};
use crate::compute::values::global_row_range;
use crate::floats::total_key;
use crate::order::{law_ranked_sorts, ranked};

/// The weights of a part of the head. Four-bit weights take the hidden state
/// through the final norm, where the block has one and there is room for it.
#[derive(Clone, Copy, Debug)]
pub enum HeadWeights<'a> {
    Bf16(&'a [u8]),
    Int4 { data: &'a [u8], scale_bits: u32, zero_point_bits: u32, norm: Option<NormPlan<'a>> },
}

/// The weights of a part of the head, as contents.
pub enum HeadWeightsView {
    Bf16(Seq<u8>),
    Int4 { data: Seq<u8>, scale_bits: u32, zero_point_bits: u32, norm: Option<NormView> },
}

impl<'a> View for HeadWeights<'a> {
    type V = HeadWeightsView;

    open spec fn view(&self) -> HeadWeightsView {
        match self {
            HeadWeights::Bf16(data) => HeadWeightsView::Bf16(data@),
            HeadWeights::Int4 { data, scale_bits, zero_point_bits, norm } => HeadWeightsView::Int4 {
                data: data@,
                scale_bits: *scale_bits,
                zero_point_bits: *zero_point_bits,
                norm: norm_view(*norm),
            },
        }
    }
}

/// A part of the head: `rows` rows that score the tokens from `row_base` on,
/// worked out `chunk` rows at a time.
#[derive(Clone, Copy, Debug)]
pub struct HeadPart<'a> {
    pub weights: HeadWeights<'a>,
    pub row_base: usize,
    pub rows: usize,
    pub cols: usize,
    pub chunk: usize,
}

/// A part of the head, as contents.
pub struct HeadPartView {
    pub weights: HeadWeightsView,
    pub row_base: usize,
    pub rows: usize,
    pub cols: usize,
    pub chunk: usize,
}

impl<'a> View for HeadPart<'a> {
    type V = HeadPartView;

    open spec fn view(&self) -> HeadPartView {
        HeadPartView {
            weights: self.weights@,
            row_base: self.row_base,
            rows: self.rows,
            cols: self.cols,
            chunk: self.chunk,
        }
    }
}

impl HeadPartView {
    /// Every row scores a token, chunks are not empty, and BF16 rows lie in the
    /// data.
    pub open spec fn wf(self) -> bool {
        &&& self.chunk >= 1
        &&& self.rows > 0 ==> self.row_base + self.rows - 1 <= u32::MAX
        &&& self.weights matches HeadWeightsView::Bf16(data) ==> 2 * self.cols * self.rows
            <= data.len() && 2 * self.cols * self.rows <= usize::MAX
    }
}

impl<'a> HeadPart<'a> {
    /// The token that a row scores.
    pub fn token(&self, row: usize) -> (token: u32)
        requires
            self@.wf(),
            row < self@.rows,
        ensures
            token == self@.row_base + row,
    {
        (self.row_base + row) as u32
    }

    /// The rows of the chunk that starts at `row`.
    pub fn chunk_rows(&self, row: usize) -> (rows: usize)
        requires
            self@.wf(),
            row < self@.rows,
        ensures
            rows == smaller(self@.chunk as int, self@.rows - row),
            rows >= 1,
    {
        smaller_of(self.chunk, self.rows - row)
    }

    /// The bytes of a BF16 row.
    pub fn bf16_row(&self, row: usize) -> (bytes: Option<&'a [u8]>)
        requires
            self@.wf(),
            row < self@.rows,
        ensures
            match self@.weights {
                HeadWeightsView::Bf16(data) => bytes matches Some(part) && part@ == data.subrange(
                    row * (2 * self@.cols),
                    (row + 1) * (2 * self@.cols),
                ),
                HeadWeightsView::Int4 { .. } => bytes is None,
            },
    {
        match self.weights {
            HeadWeights::Bf16(data) => {
                let width: usize = self.row_width();
                proof {
                    assert((row + 1) * width <= self.rows * width && (row + 1) * width == row
                        * width + width && self.rows * width == width * self.rows && 0 <= row
                        * width) by (nonlinear_arith)
                        requires
                            row + 1 <= self.rows,
                    ;
                }
                let start: usize = row * width;
                Some(&data[start..start + width])
            },
            HeadWeights::Int4 { .. } => None,
        }
    }

    fn row_width(&self) -> (width: usize)
        requires
            self@.wf(),
            self@.rows > 0,
            self@.weights is Bf16,
        ensures
            width == 2 * self@.cols,
    {
        proof {
            assert(2 * self.cols <= 2 * self.cols * self.rows) by (nonlinear_arith)
                requires
                    self.rows >= 1,
            ;
        }
        2 * self.cols
    }
}

/// A tensor that is a part of the head.
pub open spec fn is_head(t: TensorView) -> bool {
    t.role() == TensorRole::LmHead && t.dims.len() == 2
}

/// The part that BF16 rows make.
pub open spec fn bf16_head(t: TensorView, shape: MatrixShape, scratch_len: int) -> Result<
    HeadPartView,
    ComputeError,
> {
    match global_row_range(t.name, shape.rows) {
        Err(error) => Err(error),
        Ok(range) => if 2 * shape.cols > usize::MAX {
            Err(ComputeError::InvalidShape("BF16 LM-head row bytes overflow"))
        } else if 2 * shape.cols * shape.rows > usize::MAX {
            Err(ComputeError::InvalidShape("BF16 LM-head bytes overflow"))
        } else if t.data.len() < 2 * shape.cols * shape.rows {
            Err(ComputeError::InvalidShape("BF16 LM-head data too small"))
        } else if shape.rows > 0 && range.0 + shape.rows - 1 > u32::MAX {
            Err(ComputeError::InvalidShape("LM-head token overflow"))
        } else {
            Ok(
                HeadPartView {
                    weights: HeadWeightsView::Bf16(t.data),
                    row_base: range.0,
                    rows: shape.rows,
                    cols: shape.cols,
                    chunk: larger(smaller(scratch_len, shape.rows as int), 1) as usize,
                },
            )
        },
    }
}

/// Bytes of a row of four-bit weights.
pub open spec fn int4_row_bytes(cols: int) -> int {
    (cols + 1) / 2
}

/// Why the chunks from row `from` on cannot be worked out, if they cannot.
pub open spec fn chunks_error(
    t: TensorView,
    shape: MatrixShape,
    row_base: int,
    chunk: int,
    from: int,
) -> Option<ComputeError>
    decreases shape.rows - from,
{
    let offset = from * int4_row_bytes(shape.cols as int);
    let rows = smaller(chunk, shape.rows - from);
    if from >= shape.rows || chunk < 1 {
        None
    } else if offset > usize::MAX {
        Some(ComputeError::InvalidShape("LM-head row offset overflow"))
    } else if offset >= t.data.len() {
        Some(ComputeError::InvalidShape("LM-head row offset out of range"))
    } else {
        match int4_error(rows, shape.cols as int, t.scale_bits, t.zero_point_bits) {
            Some(error) => Some(error),
            None => if row_base + from + rows - 1 > u32::MAX {
                Some(ComputeError::InvalidShape("LM-head token overflow"))
            } else {
                chunks_error(t, shape, row_base, chunk, from + rows)
            },
        }
    }
}

/// The norm before the head, where the block has one and there is room for it.
pub open spec fn head_norm(b: BlockView, cols: usize, hidden_len: int, scratch_len: int) -> Result<
    Option<NormView>,
    ComputeError,
> {
    match b.first(|t: TensorView| is_final_norm(t, cols)) {
        Err(error) => Err(error),
        Ok(None) => Ok(None),
        Ok(Some(norm)) => if scratch_len > cols {
            match norm_of(norm, hidden_len, cols as int) {
                Err(error) => Err(error),
                Ok(plan) => Ok(Some(plan)),
            }
        } else {
            Ok(None)
        },
    }
}

/// The part that rows of four-bit weights make.
pub open spec fn int4_head(
    b: BlockView,
    t: TensorView,
    shape: MatrixShape,
    hidden_len: int,
    scratch_len: int,
) -> Result<HeadPartView, ComputeError> {
    match head_norm(b, shape.cols, hidden_len, scratch_len) {
        Err(error) => Err(error),
        Ok(norm) => match global_row_range(t.name, shape.rows) {
            Err(error) => Err(error),
            Ok(range) => {
                let room = if norm is Some {
                    scratch_len - shape.cols
                } else {
                    scratch_len
                };
                let chunk = larger(smaller(room, shape.rows as int), 1);
                match chunks_error(t, shape, range.0 as int, chunk, 0) {
                    Some(error) => Err(error),
                    None => Ok(
                        HeadPartView {
                            weights: HeadWeightsView::Int4 {
                                data: t.data,
                                scale_bits: t.scale_bits,
                                zero_point_bits: t.zero_point_bits,
                                norm,
                            },
                            row_base: range.0,
                            rows: shape.rows,
                            cols: shape.cols,
                            chunk: chunk as usize,
                        },
                    ),
                }
            },
        },
    }
}

/// The part of the head that a tensor makes.
pub open spec fn head_part(b: BlockView, t: TensorView, hidden_len: int, scratch_len: int) -> Result<
    HeadPartView,
    ComputeError,
> {
    match matrix_shape(t) {
        Err(error) => Err(error),
        Ok(shape) => if hidden_len < shape.cols {
            Err(ComputeError::InvalidShape("LM-head input too small"))
        } else if is_bf16(t) {
            bf16_head(t, shape, scratch_len)
        } else {
            int4_head(b, t, shape, hidden_len, scratch_len)
        },
    }
}

fn plan_bf16_head<'a>(tensor: QuantTensorLayout<'a>, shape: MatrixShape, scratch_len: usize) -> (
result: Result<HeadPart<'a>, ComputeError>)
    requires
        scratch_len > 0,
    ensures
        agrees(result, bf16_head(tensor@, shape, scratch_len as int)),
        result matches Ok(part) ==> part@.wf(),
{
    let (row_base, row_end): (usize, usize) = tensor_global_row_range(tensor, shape.rows)?;
    proof {
        crate::compute::values::law_row_range_spans_local_rows(tensor@.name, shape.rows);
    }
    let row_bytes: usize = match shape.cols.checked_mul(2) {
        Some(bytes) => bytes,
        None => return Err(ComputeError::InvalidShape("BF16 LM-head row bytes overflow")),
    };
    let expected: usize = match row_bytes.checked_mul(shape.rows) {
        Some(bytes) => bytes,
        None => return Err(ComputeError::InvalidShape("BF16 LM-head bytes overflow")),
    };
    if tensor.data.len() < expected {
        return Err(ComputeError::InvalidShape("BF16 LM-head data too small"));
    }
    if shape.rows > 0 && (row_end - 1) as u64 > 0xffff_ffff {
        return Err(ComputeError::InvalidShape("LM-head token overflow"));
    }
    let chunk: usize = larger_of(smaller_of(scratch_len, shape.rows), 1);
    Ok(
        HeadPart {
            weights: HeadWeights::Bf16(tensor.data),
            row_base,
            rows: shape.rows,
            cols: shape.cols,
            chunk,
        },
    )
}

fn plan_head_norm<'a>(
    layout: &QuantBlockLayout<'a>,
    cols: usize,
    hidden_len: usize,
    scratch_len: usize,
) -> (result: Result<Option<NormPlan<'a>>, ComputeError>)
    ensures
        crate::compute::error::found_agrees(
            result,
            head_norm(layout@, cols, hidden_len as int, scratch_len as int),
        ),
        result matches Ok(Some(_)) ==> scratch_len > cols,
{
    match final_norm_tensor(layout, cols)? {
        None => Ok(None),
        Some(norm) => if scratch_len > cols {
            let plan = plan_weighted_rms_norm(norm, hidden_len, cols)?;
            Ok(Some(plan))
        } else {
            Ok(None)
        },
    }
}

fn check_chunks(
    tensor: &QuantTensorLayout<'_>,
    shape: MatrixShape,
    row_base: usize,
    chunk: usize,
) -> (error: Option<ComputeError>)
    requires
        chunk >= 1,
        row_base + shape.rows <= usize::MAX,
    ensures
        error == chunks_error(tensor@, shape, row_base as int, chunk as int, 0),
        error is None && shape.rows > 0 ==> row_base + shape.rows - 1 <= u32::MAX,
{
    let row_bytes: usize = packed_i4_row_bytes(shape.cols);
    let mut from: usize = 0;
    while from < shape.rows
        invariant
            from <= shape.rows,
            chunk >= 1,
            row_base + shape.rows <= usize::MAX,
            row_bytes == int4_row_bytes(shape.cols as int),
            from > 0 ==> row_base + from - 1 <= u32::MAX,
            chunks_error(tensor@, shape, row_base as int, chunk as int, 0) == chunks_error(
                tensor@,
                shape,
                row_base as int,
                chunk as int,
                from as int,
            ),
        decreases shape.rows - from,
    {
        let rows: usize = smaller_of(chunk, shape.rows - from);
        let offset: usize = match from.checked_mul(row_bytes) {
            Some(offset) => offset,
            None => return Some(ComputeError::InvalidShape("LM-head row offset overflow")),
        };
        if offset >= tensor.data.len() {
            return Some(ComputeError::InvalidShape("LM-head row offset out of range"));
        }
        match check_int4_args(rows, shape.cols, tensor.scale_bits, tensor.zero_point_bits) {
            Some(error) => return Some(error),
            None => {},
        }
        if (row_base + from + rows - 1) as u64 > 0xffff_ffff {
            return Some(ComputeError::InvalidShape("LM-head token overflow"));
        }
        from += rows;
    }
    None
}

fn plan_int4_head<'a>(
    layout: &QuantBlockLayout<'a>,
    tensor: QuantTensorLayout<'a>,
    shape: MatrixShape,
    hidden_len: usize,
    scratch_len: usize,
) -> (result: Result<HeadPart<'a>, ComputeError>)
    ensures
        agrees(
            result,
            int4_head(layout@, tensor@, shape, hidden_len as int, scratch_len as int),
        ),
        result matches Ok(part) ==> part@.wf(),
{
    let norm = plan_head_norm(layout, shape.cols, hidden_len, scratch_len)?;
    let (row_base, _row_end): (usize, usize) = tensor_global_row_range(tensor, shape.rows)?;
    proof {
        crate::compute::values::law_row_range_spans_local_rows(tensor@.name, shape.rows);
    }
    let room: usize = if norm.is_some() {
        scratch_len - shape.cols
    } else {
        scratch_len
    };
    let chunk: usize = larger_of(smaller_of(room, shape.rows), 1);
    match check_chunks(&tensor, shape, row_base, chunk) {
        Some(error) => return Err(error),
        None => {},
    }
    Ok(
        HeadPart {
            weights: HeadWeights::Int4 {
                data: tensor.data,
                scale_bits: tensor.scale_bits,
                zero_point_bits: tensor.zero_point_bits,
                norm,
            },
            row_base,
            rows: shape.rows,
            cols: shape.cols,
            chunk,
        },
    )
}

fn plan_head_part<'a>(
    layout: &QuantBlockLayout<'a>,
    tensor: QuantTensorLayout<'a>,
    hidden_len: usize,
    scratch_len: usize,
) -> (result: Result<HeadPart<'a>, ComputeError>)
    requires
        scratch_len > 0,
    ensures
        agrees(
            result,
            head_part(layout@, tensor@, hidden_len as int, scratch_len as int),
        ),
        result matches Ok(part) ==> part@.wf(),
{
    let shape: MatrixShape = tensor_matrix_shape(tensor)?;
    if hidden_len < shape.cols {
        return Err(ComputeError::InvalidShape("LM-head input too small"));
    }
    if tensor.quant_format == QUANT_DEEPSEEK_BF16_AUX && tensor.dtype_original == 11 {
        return plan_bf16_head(tensor, shape, scratch_len);
    }
    plan_int4_head(layout, tensor, shape, hidden_len, scratch_len)
}

/// The parts of the head among the first `n` tensors of a block.
pub open spec fn head_parts(b: BlockView, n: int, hidden_len: int, scratch_len: int) -> Result<
    Seq<HeadPartView>,
    ComputeError,
>
    decreases n,
{
    if n <= 0 {
        Ok(seq![])
    } else {
        match head_parts(b, n - 1, hidden_len, scratch_len) {
            Err(error) => Err(error),
            Ok(before) => match b.tensor(n - 1) {
                Err(error) => Err(error),
                Ok(t) => if !is_head(t) {
                    Ok(before)
                } else {
                    match head_part(b, t, hidden_len, scratch_len) {
                        Err(error) => Err(error),
                        Ok(part) => Ok(before.push(part)),
                    }
                },
            },
        }
    }
}

proof fn lemma_parts_error(b: BlockView, k: int, n: int, hidden_len: int, scratch_len: int)
    requires
        0 <= k <= n,
        head_parts(b, k, hidden_len, scratch_len) is Err,
    ensures
        head_parts(b, n, hidden_len, scratch_len) == head_parts(b, k, hidden_len, scratch_len),
    decreases n,
{
    if k < n {
        lemma_parts_error(b, k, n - 1, hidden_len, scratch_len);
    }
}

/// The contents of the parts of a head.
pub open spec fn part_views(parts: Seq<HeadPart<'_>>) -> Seq<HeadPartView> {
    parts.map_values(|part: HeadPart<'_>| part@)
}

/// The head in the bytes of a block.
pub open spec fn lm_head_of(block: Seq<u8>, hidden_len: int, scratch_len: int) -> Result<
    Seq<HeadPartView>,
    ComputeError,
> {
    match parsed_block(block) {
        Err(error) => Err(error),
        Ok(b) => if scratch_len == 0 {
            Err(ComputeError::ScratchTooSmall { required: 1, actual: 0 })
        } else {
            head_parts(b, b.count() as int, hidden_len, scratch_len)
        },
    }
}

/// Plans the scores of all tokens that a block has rows for. A block without a
/// head has no parts.
pub fn plan_lm_head<'a>(block: &'a [u8], hidden_len: usize, scratch_len: usize) -> (result: Result<
    Vec<HeadPart<'a>>,
    ComputeError,
>)
    ensures
        match result {
            Ok(parts) => lm_head_of(block@, hidden_len as int, scratch_len as int) == Ok::<
                Seq<HeadPartView>,
                ComputeError,
            >(part_views(parts@)) && forall|i: int|
                0 <= i < parts@.len() ==> (#[trigger] parts@[i])@.wf(),
            Err(error) => lm_head_of(block@, hidden_len as int, scratch_len as int) == Err::<
                Seq<HeadPartView>,
                ComputeError,
            >(error),
        },
{
    let layout = parse_quant_block(block)?;
    if scratch_len == 0 {
        return Err(ComputeError::ScratchTooSmall { required: 1, actual: 0 });
    }
    let count: usize = layout.tensor_count();
    let mut parts: Vec<HeadPart<'a>> = Vec::new();
    let mut i: usize = 0;
    proof {
        assert(part_views(parts@) =~= seq![]);
    }
    while i < count
        invariant
            i <= count,
            count == layout@.count(),
            scratch_len > 0,
            parsed_block(block@) == Ok::<BlockView, ComputeError>(layout@),
            head_parts(layout@, i as int, hidden_len as int, scratch_len as int) == Ok::<
                Seq<HeadPartView>,
                ComputeError,
            >(part_views(parts@)),
            forall|j: int| 0 <= j < parts@.len() ==> (#[trigger] parts@[j])@.wf(),
        decreases count - i,
    {
        proof {
            if head_parts(layout@, i + 1, hidden_len as int, scratch_len as int) is Err {
                lemma_parts_error(
                    layout@,
                    i + 1,
                    count as int,
                    hidden_len as int,
                    scratch_len as int,
                );
            }
        }
        let tensor = layout.tensor(i)?;
        if tensor.role() == TensorRole::LmHead && tensor.shape.rank() == 2 {
            let ghost before = parts@;
            let part = plan_head_part(&layout, tensor, hidden_len, scratch_len)?;
            parts.push(part);
            proof {
                assert(part_views(parts@) =~= part_views(before).push(part@));
            }
        }
        i += 1;
    }
    Ok(parts)
}

/// Tokens with the places of their scores in the total order.
pub open spec fn token_keys(best: Seq<(u32, u32)>) -> Seq<(i128, (u32, u32))> {
    best.map_values(|entry: (u32, u32)| (total_key(entry.1) as i128, entry))
}

/// Tokens and scores from the highest score to the lowest.
pub open spec fn sorted_tokens(best: Seq<(u32, u32)>) -> Seq<(u32, u32)> {
    ranked(token_keys(best)).map_values(|entry: (i128, (u32, u32))| entry.1)
}

/// Sorts tokens from the highest score to the lowest, equal ones in the order
/// in which they stand.
pub fn sort_tokens(best: &[(u32, u32)]) -> (sorted: Vec<(u32, u32)>)
    ensures
        sorted@ == sorted_tokens(best@),
{
    let mut keys: Vec<(i128, (u32, u32))> = Vec::new();
    let mut i: usize = 0;
    while i < best.len()
        invariant
            i <= best@.len(),
            keys@ == token_keys(best@.take(i as int)),
        decreases best@.len() - i,
    {
        let entry: (u32, u32) = best[i];
        let key: i128 = total_order_key(entry.1);
        keys.push((key, entry));
        proof {
            assert(keys@ =~= token_keys(best@.take(i + 1)));
        }
        i += 1;
    }
    proof {
        assert(best@.take(i as int) =~= best@);
    }
    let ordered: Vec<(i128, (u32, u32))> = rank_descending(&keys);
    let mut sorted: Vec<(u32, u32)> = Vec::new();
    let mut j: usize = 0;
    while j < ordered.len()
        invariant
            j <= ordered@.len(),
            sorted@ == ordered@.take(j as int).map_values(|entry: (i128, (u32, u32))| entry.1),
        decreases ordered@.len() - j,
    {
        sorted.push(ordered[j].1);
        proof {
            assert(sorted@ =~= ordered@.take(j + 1).map_values(
                |entry: (i128, (u32, u32))| entry.1,
            ));
        }
        j += 1;
    }
    proof {
        assert(ordered@.take(j as int) =~= ordered@);
    }
    sorted
}

/// What the scores come to: without a head nothing, with a head the best,
/// sorted. A head has at least one row.
pub fn finish_lm_head(parts: usize, best: &[(u32, u32)]) -> (result: Result<
    Vec<(u32, u32)>,
    ComputeError,
>)
    ensures
        match result {
            Ok(tokens) => if parts == 0 {
                tokens@ == Seq::<(u32, u32)>::empty()
            } else {
                best@.len() > 0 && tokens@ == sorted_tokens(best@)
            },
            Err(error) => parts > 0 && best@.len() == 0 && error == ComputeError::InvalidShape(
                "LM-head has no rows",
            ),
        },
{
    if parts == 0 {
        return Ok(Vec::new());
    }
    if best.len() == 0 {
        return Err(ComputeError::InvalidShape("LM-head has no rows"));
    }
    Ok(sort_tokens(best))
}

/// Sorting tokens keeps them all, and their scores do not rise.
pub proof fn law_tokens_are_sorted(best: Seq<(u32, u32)>)
    ensures
        sorted_tokens(best).len() == best.len(),
        forall|i: int| 0 <= i < best.len() ==> best.contains(#[trigger] sorted_tokens(best)[i]),
        forall|i: int, j: int|
            0 <= i <= j < best.len() ==> total_key((#[trigger] sorted_tokens(best)[i]).1)
                >= total_key((#[trigger] sorted_tokens(best)[j]).1),
{
    let keys = token_keys(best);
    let sorted = ranked(keys);
    law_ranked_sorts(keys);
    assert forall|i: int| 0 <= i < best.len() implies {
        &&& best.contains(#[trigger] sorted_tokens(best)[i])
        &&& sorted[i].0 == total_key(sorted_tokens(best)[i].1)
    } by {
        broadcast use vstd::seq_lib::group_to_multiset_ensures;

        assert(sorted.contains(sorted[i]));
        assert(sorted.to_multiset().count(sorted[i]) > 0);
        assert(keys.contains(sorted[i]));
        let c = choose|c: int| 0 <= c < keys.len() && keys[c] == sorted[i];
        assert(best[c] == sorted_tokens(best)[i]);
    }
}

/// The rows of the head among the first `n` tensors of a block, where one of
/// them is a part of it.
pub open spec fn head_rows(b: BlockView, n: int) -> Result<Option<usize>, ComputeError>
    decreases n,
{
    if n <= 0 {
        Ok(None)
    } else {
        match head_rows(b, n - 1) {
            Err(error) => Err(error),
            Ok(before) => match b.tensor(n - 1) {
                Err(error) => Err(error),
                Ok(t) => if !is_head(t) {
                    Ok(before)
                } else {
                    let rows = match before {
                        Some(rows) => rows + t.dims[0],
                        None => t.dims[0] as int,
                    };
                    if rows > usize::MAX {
                        Err(ComputeError::InvalidShape("LM-head row count overflow"))
                    } else {
                        Ok(Some(rows as usize))
                    }
                },
            },
        }
    }
}

proof fn lemma_rows_error(b: BlockView, k: int, n: int)
    requires
        0 <= k <= n,
        head_rows(b, k) is Err,
    ensures
        head_rows(b, n) == head_rows(b, k),
    decreases n,
{
    if k < n {
        lemma_rows_error(b, k, n - 1);
    }
}

/// Number of rows of the head that a block holds, if it holds any part of it.
pub fn lm_head_row_count_from_block(block: &[u8]) -> (result: Result<Option<usize>, ComputeError>)
    ensures
        result == match parsed_block(block@) {
            Err(error) => Err::<Option<usize>, ComputeError>(error),
            Ok(b) => head_rows(b, b.count() as int),
        },
{
    let layout = parse_quant_block(block)?;
    let count: usize = layout.tensor_count();
    let mut found: Option<usize> = None;
    let mut i: usize = 0;
    while i < count
        invariant
            i <= count,
            count == layout@.count(),
            parsed_block(block@) == Ok::<BlockView, ComputeError>(layout@),
            head_rows(layout@, i as int) == Ok::<Option<usize>, ComputeError>(found),
        decreases count - i,
    {
        proof {
            if head_rows(layout@, i + 1) is Err {
                lemma_rows_error(layout@, i + 1, count as int);
            }
        }
        let tensor = layout.tensor(i)?;
        if tensor.role() == TensorRole::LmHead && tensor.shape.rank() == 2 {
            let shape: MatrixShape = tensor_matrix_shape(tensor)?;
            let before: usize = match found {
                Some(rows) => rows,
                None => 0,
            };
            match before.checked_add(shape.rows) {
                Some(rows) => found = Some(rows),
                None => return Err(ComputeError::InvalidShape("LM-head row count overflow")),
            }
        }
        i += 1;
    }
    Ok(found)
}

/// `part` is the share of the output that a tensor has: one row to each of its
/// rows, from the first token of its range on, with its weights.
pub open spec fn is_share(t: TensorView, part: HeadPartView) -> bool {
    &&& t.role() == TensorRole::LmHead
    &&& t.dims.len() == 2
    &&& part.rows == t.dims[0]
    &&& part.cols == t.dims[1]
    &&& global_row_range(t.name, t.dims[0]) matches Ok(range) && part.row_base == range.0
    &&& 1 <= part.chunk
    &&& match part.weights {
        HeadWeightsView::Bf16(data) => is_bf16(t) && data == t.data,
        HeadWeightsView::Int4 { data, scale_bits, zero_point_bits, norm } => {
            &&& !is_bf16(t)
            &&& data == t.data
            &&& scale_bits == t.scale_bits
            &&& zero_point_bits == t.zero_point_bits
        },
    }
}

/// The output has one share for each tensor of its role, in the order of the
/// tensors, at `places`.
pub proof fn law_shares_follow_the_tensors(
    b: BlockView,
    n: int,
    hidden_len: int,
    scratch_len: int,
) -> (places: Seq<int>)
    requires
        0 <= n,
    ensures
        head_parts(b, n, hidden_len, scratch_len) matches Ok(parts) ==> {
            &&& places.len() == parts.len()
            &&& forall|k: int|
                0 <= k < places.len() ==> 0 <= #[trigger] places[k] < n && (b.tensor(
                    places[k],
                ) matches Ok(t) && is_share(t, parts[k]))
            &&& forall|j: int, k: int|
                0 <= j < k < places.len() ==> #[trigger] places[j] < #[trigger] places[k]
            &&& forall|i: int|
                0 <= i < n && (#[trigger] b.tensor(i) matches Ok(t) && t.role()
                    == TensorRole::LmHead && t.dims.len() == 2) ==> places.contains(i)
        },
    decreases n,
{
    if n <= 0 {
        Seq::empty()
    } else {
        let before = law_shares_follow_the_tensors(b, n - 1, hidden_len, scratch_len);
        let parts = head_parts(b, n, hidden_len, scratch_len);
        if parts is Ok && b.tensor(n - 1) is Ok && is_head(b.tensor(n - 1)->Ok_0) {
            let places = before.push(n - 1);
            let old_parts = head_parts(b, n - 1, hidden_len, scratch_len)->Ok_0;
            assert forall|k: int| 0 <= k < places.len() implies 0 <= #[trigger] places[k] < n && (
            b.tensor(places[k]) matches Ok(t) && is_share(t, parts->Ok_0[k])) by {
                if k < before.len() {
                    assert(places[k] == before[k]);
                    assert(parts->Ok_0[k] == old_parts[k]);
                }
            }
            assert forall|i: int|
                0 <= i < n && (#[trigger] b.tensor(i) matches Ok(t) && t.role()
                    == TensorRole::LmHead && t.dims.len() == 2) implies places.contains(i) by {
                if i == n - 1 {
                    assert(places[before.len() as int] == i);
                } else {
                    let k = choose|k: int| 0 <= k < before.len() && before[k] == i;
                    assert(places[k] == i);
                }
            }
            places
        } else {
            before
        }
    }
}

/// How many rows shares have together.
pub open spec fn rows_of(parts: Seq<HeadPartView>) -> nat
    decreases parts.len(),
{
    if parts.len() == 0 {
        0
    } else {
        rows_of(parts.drop_last()) + parts.last().rows as nat
    }
}

/// The number of rows of the output is that of all its shares.
pub proof fn law_row_count_is_that_of_the_shares(
    b: BlockView,
    n: int,
    hidden_len: int,
    scratch_len: int,
)
    requires
        0 <= n,
    ensures
        (head_parts(b, n, hidden_len, scratch_len) matches Ok(parts) && head_rows(b, n) is Ok)
            ==> match head_rows(b, n)->Ok_0 {
            Some(rows) => rows == rows_of(head_parts(b, n, hidden_len, scratch_len)->Ok_0),
            None => head_parts(b, n, hidden_len, scratch_len)->Ok_0.len() == 0,
        },
    decreases n,
{
    if n > 0 {
        law_row_count_is_that_of_the_shares(b, n - 1, hidden_len, scratch_len);
        let parts = head_parts(b, n, hidden_len, scratch_len);
        if parts is Ok && head_rows(b, n) is Ok && is_head(b.tensor(n - 1)->Ok_0) {
            let before = head_parts(b, n - 1, hidden_len, scratch_len)->Ok_0;
            assert(parts->Ok_0.drop_last() =~= before);
            if before.len() == 0 {
                assert(rows_of(before) == 0);
            }
        }
    }
}

/// Tokens are put in the order of their scores: each of them comes once, one with
/// a higher score first, and of two with the same score the one that was first.
pub proof fn law_sorting_tokens_arranges_them(best: Seq<(u32, u32)>) -> (places: Seq<int>)
    ensures
        places.len() == best.len() == sorted_tokens(best).len(),
        forall|i: int| 0 <= i < best.len() ==> 0 <= #[trigger] places[i] < best.len(),
        forall|i: int|
            0 <= i < best.len() ==> #[trigger] sorted_tokens(best)[i] == best[places[i]],
        forall|i: int, j: int|
            0 <= i < j < best.len() ==> {
                let first = #[trigger] places[i];
                let second = #[trigger] places[j];
                total_key(best[first].1) > total_key(best[second].1) || (total_key(best[first].1)
                    == total_key(best[second].1) && first < second)
            },
{
    let keys = token_keys(best);
    let places = crate::order::law_ranking_arranges(keys);
    assert forall|i: int| 0 <= i < best.len() implies #[trigger] sorted_tokens(best)[i]
        == best[places[i]] by {
        assert(ranked(keys)[i] == keys[places[i]]);
    }
    assert forall|i: int, j: int| 0 <= i < j < best.len() implies ({
        let first = #[trigger] places[i];
        let second = #[trigger] places[j];
        total_key(best[first].1) > total_key(best[second].1) || (total_key(best[first].1)
            == total_key(best[second].1) && first < second)
    }) by {
        assert(keys[places[i]].0 == total_key(best[places[i]].1));
        assert(keys[places[j]].0 == total_key(best[places[j]].1));
    }
    places
}

/// Rows of a share are the tokens from its first one on, and each row of weights is
/// the row of the tensor; a chunk never goes past the last row.
pub proof fn law_rows_are_tokens(
    part: &HeadPart<'_>,
    row: usize,
    token: u32,
    next: u32,
    bytes: Option<&[u8]>,
    rows: usize,
    i: int,
)
    requires
        part@.wf(),
        row + 1 < part@.rows,
        call_ensures(HeadPart::token, (part, row), token),
        call_ensures(HeadPart::token, (part, (row + 1) as usize), next),
        call_ensures(HeadPart::bf16_row, (part, row), bytes),
        call_ensures(HeadPart::chunk_rows, (part, row), rows),
    ensures
        token == part.row_base + row,
        next == token + 1,
        bytes is Some == part@.weights is Bf16,
        bytes matches Some(found) ==> (part@.weights matches HeadWeightsView::Bf16(data)
            && found@.len() == 2 * part.cols && (0 <= i < found@.len() ==> found@[i] == data[row * (2
            * part.cols) + i])),
        1 <= rows <= part.chunk,
        row + rows <= part.rows,
        rows < part.chunk ==> row + rows == part.rows,
{
    let width = 2 * part.cols as int;
    assert((row + 1) * width == row * width + width) by (nonlinear_arith);
    assert(0 <= row * width && row * width + width <= part.rows * width) by (nonlinear_arith)
        requires
            row + 1 <= part.rows,
            width >= 0,
    ;
    assert(2 * part.cols * part.rows == part.rows * width) by (nonlinear_arith)
        requires
            width == 2 * part.cols,
    ;
}

} // verus!
