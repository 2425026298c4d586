//! Embeddings: the row of a token.

use crate::compute::config::packed_i4_row_bytes;
use crate::compute::error::{ComputeError, DiskQuantFormat};
use crate::compute::lookup::{tensor_matrix_shape, MatrixShape};
use crate::compute::quant_block::{parse_quant_block, QuantTensorLayout, TensorRole};
use crate::compute::values::{load_bf16_values, tensor_global_row_range};
use crate::deepseek_v4::QUANT_DEEPSEEK_BF16_AUX;
use vstd::prelude::*;

verus! {

use crate::compute::error::found_agrees;
use crate::compute::gemv::is_bf16;
use crate::compute::lookup::matrix_shape;
use crate::compute::quant_block::{parsed_block, BlockView, TensorView};
use crate::compute::values::{bf16_values, global_row_range};

/// The row of a token: BF16 numbers, or four-bit weights with one scale and
/// zero point.
#[derive(Clone, Copy, Debug)]
pub enum EmbeddingRow<'a> {
    Bf16 { bytes: &'a [u8], cols: usize },
    Int4 { bytes: &'a [u8], cols: usize, scale_bits: u32, zero_point_bits: u32 },
}

/// The row of a token, as contents.
pub enum EmbeddingView {
    Bf16 { bytes: Seq<u8>, cols: usize },
    Int4 { bytes: Seq<u8>, cols: usize, scale_bits: u32, zero_point_bits: u32 },
}

impl<'a> View for EmbeddingRow<'a> {
    type V = EmbeddingView;

    open spec fn view(&self) -> EmbeddingView {
        match self {
            EmbeddingRow::Bf16 { bytes, cols } => EmbeddingView::Bf16 { bytes: bytes@, cols: *cols },
            EmbeddingRow::Int4 { bytes, cols, scale_bits, zero_point_bits } => EmbeddingView::Int4 {
                bytes: bytes@,
                cols: *cols,
                scale_bits: *scale_bits,
                zero_point_bits: *zero_point_bits,
            },
        }
    }
}

impl EmbeddingView {
    /// The bytes hold every column.
    pub open spec fn wf(self) -> bool {
        match self {
            EmbeddingView::Bf16 { bytes, cols } => bytes.len() == 2 * cols,
            EmbeddingView::Int4 { bytes, cols, .. } => bytes.len() == (cols + 1) / 2,
        }
    }
}

impl<'a> EmbeddingRow<'a> {
    /// The numbers of a BF16 row, as single-precision patterns.
    pub fn bf16_values(&self) -> (values: Option<Vec<u32>>)
        requires
            self@.wf(),
        ensures
            match self@ {
                EmbeddingView::Bf16 { bytes, cols } => values matches Some(row) && row@
                    == bf16_values(bytes, cols as int),
                EmbeddingView::Int4 { .. } => values is None,
            },
    {
        match *self {
            EmbeddingRow::Bf16 { bytes, cols } => Some(load_bf16_values(bytes, cols)),
            EmbeddingRow::Int4 { .. } => None,
        }
    }
}

/// A tensor that holds embeddings.
pub open spec fn is_embedding(t: TensorView) -> bool {
    t.role() == TensorRole::Embed && t.dims.len() == 2
}

/// Row `local` of a tensor of embeddings.
pub open spec fn embedding_row(t: TensorView, shape: MatrixShape, local: int, output_len: int) -> Result<
    EmbeddingView,
    ComputeError,
> {
    if output_len < shape.cols {
        Err(ComputeError::OutputTooSmall { required: shape.cols, actual: output_len as usize })
    } else if is_bf16(t) {
        let row_bytes = 2 * shape.cols;
        if row_bytes > usize::MAX {
            Err(ComputeError::InvalidShape("BF16 embedding row bytes overflow"))
        } else if local * row_bytes > usize::MAX {
            Err(ComputeError::InvalidShape("BF16 embedding row offset overflow"))
        } else if local * row_bytes + row_bytes > t.data.len() {
            Err(ComputeError::InvalidShape("BF16 embedding row outside tensor data"))
        } else {
            Ok(
                EmbeddingView::Bf16 {
                    bytes: t.data.subrange(local * row_bytes, local * row_bytes + row_bytes),
                    cols: shape.cols,
                },
            )
        }
    } else if t.quant_format != 4 {
        Err(ComputeError::UnsupportedQuantFormat(DiskQuantFormat::Int8Symmetric))
    } else {
        let row_bytes = (shape.cols + 1) / 2;
        if local * row_bytes > usize::MAX {
            Err(ComputeError::InvalidShape("embedding row offset overflow"))
        } else if local * row_bytes + row_bytes > t.data.len() {
            Err(ComputeError::InvalidShape("embedding row outside tensor data"))
        } else {
            Ok(
                EmbeddingView::Int4 {
                    bytes: t.data.subrange(local * row_bytes, local * row_bytes + row_bytes),
                    cols: shape.cols,
                    scale_bits: t.scale_bits,
                    zero_point_bits: t.zero_point_bits,
                },
            )
        }
    }
}

fn span<'a>(data: &'a [u8], row: usize, width: usize) -> (part: Result<&'a [u8], bool>)
    ensures
        match part {
            Ok(bytes) => row * width <= usize::MAX && row * width + width <= data@.len() && bytes@ == data@.subrange(
                row * width,
                row * width + width,
            ),
            Err(overflow) => row * width + width > data@.len() && overflow == (row * width
                > usize::MAX),
        },
{
    let len: usize = data.len();
    let start: usize = match row.checked_mul(width) {
        Some(start) => start,
        None => return Err(true),
    };
    match start.checked_add(width) {
        Some(end) => if end <= len {
            Ok(&data[start..end])
        } else {
            Err(false)
        },
        None => Err(false),
    }
}

fn plan_embedding_row<'a>(
    tensor: QuantTensorLayout<'a>,
    shape: MatrixShape,
    local: usize,
    output_len: usize,
) -> (result: Result<EmbeddingRow<'a>, ComputeError>)
    ensures
        crate::compute::error::agrees(
            result,
            embedding_row(tensor@, shape, local as int, output_len as int),
        ),
        result matches Ok(row) ==> row@.wf(),
{
    if output_len < shape.cols {
        return Err(ComputeError::OutputTooSmall { required: shape.cols, actual: output_len });
    }
    if tensor.quant_format == QUANT_DEEPSEEK_BF16_AUX && tensor.dtype_original == 11 {
        let row_bytes: usize = match shape.cols.checked_mul(2) {
            Some(bytes) => bytes,
            None => return Err(ComputeError::InvalidShape("BF16 embedding row bytes overflow")),
        };
        return match span(tensor.data, local, row_bytes) {
            Ok(bytes) => Ok(EmbeddingRow::Bf16 { bytes, cols: shape.cols }),
            Err(true) => Err(ComputeError::InvalidShape("BF16 embedding row offset overflow")),
            Err(false) => Err(
                ComputeError::InvalidShape("BF16 embedding row outside tensor data"),
            ),
        };
    }
    if tensor.quant_format != 4 {
        return Err(ComputeError::UnsupportedQuantFormat(DiskQuantFormat::Int8Symmetric));
    }
    let row_bytes: usize = packed_i4_row_bytes(shape.cols);
    match span(tensor.data, local, row_bytes) {
        Ok(bytes) => Ok(
            EmbeddingRow::Int4 {
                bytes,
                cols: shape.cols,
                scale_bits: tensor.scale_bits,
                zero_point_bits: tensor.zero_point_bits,
            },
        ),
        Err(true) => Err(ComputeError::InvalidShape("embedding row offset overflow")),
        Err(false) => Err(ComputeError::InvalidShape("embedding row outside tensor data")),
    }
}

/// The row of a token in the tensors from `from` on: the first tensor of
/// embeddings whose rows reach it has it.
pub open spec fn embedding_from(b: BlockView, token: int, output_len: int, from: int) -> Result<
    Option<EmbeddingView>,
    ComputeError,
>
    decreases b.count() - from,
{
    if from >= b.count() {
        Ok(None)
    } else {
        match b.tensor(from) {
            Err(error) => Err(error),
            Ok(t) => if !is_embedding(t) {
                embedding_from(b, token, output_len, from + 1)
            } else {
                match matrix_shape(t) {
                    Err(error) => Err(error),
                    Ok(shape) => match global_row_range(t.name, shape.rows) {
                        Err(error) => Err(error),
                        Ok(range) => if token < range.0 || token >= range.1 {
                            embedding_from(b, token, output_len, from + 1)
                        } else {
                            match embedding_row(t, shape, token - range.0, output_len) {
                                Err(error) => Err(error),
                                Ok(row) => Ok(Some(row)),
                            }
                        },
                    },
                }
            },
        }
    }
}

/// The row of a token in the bytes of a block.
pub open spec fn embedding_of(block: Seq<u8>, token: int, output_len: int) -> Result<
    Option<EmbeddingView>,
    ComputeError,
> {
    match parsed_block(block) {
        Err(error) => Err(error),
        Ok(b) => embedding_from(b, token, output_len, 0),
    }
}

/// Finds the embedding of a token. A block without it has no row.
pub fn plan_token_embedding<'a>(block: &'a [u8], token_id: u32, output_len: usize) -> (result: Result<
    Option<EmbeddingRow<'a>>,
    ComputeError,
>)
    ensures
        found_agrees(
            result,
            embedding_of(block@, (token_id as usize) as int, output_len as int),
        ),
        result matches Ok(Some(row)) ==> row@.wf(),
{
    let layout = parse_quant_block(block)?;
    let token: usize = token_id as usize;
    let count: usize = layout.tensor_count();
    let mut i: usize = 0;
    while i < count
        invariant
            i <= count,
            count == layout@.count(),
            token == token_id as usize,
            parsed_block(block@) == Ok::<BlockView, ComputeError>(layout@),
            embedding_from(layout@, token as int, output_len as int, 0) == embedding_from(
                layout@,
                token as int,
                output_len as int,
                i as int,
            ),
        decreases count - i,
    {
        let tensor = layout.tensor(i)?;
        if tensor.role() == TensorRole::Embed && tensor.shape.rank() == 2 {
            let shape: MatrixShape = tensor_matrix_shape(tensor)?;
            let (row_base, row_end): (usize, usize) = tensor_global_row_range(tensor, shape.rows)?;
            if token >= row_base && token < row_end {
                let row = plan_embedding_row(tensor, shape, token - row_base, output_len)?;
                return Ok(Some(row));
            }
        }
        i += 1;
    }
    Ok(None)
}

/// The row of a tensor that `row` is: its bytes stand one behind the other, from
/// the start of row `local` on, and a packed row has the scale and zero point of
/// the tensor.
#[verifier::opaque]
pub open spec fn is_row(t: TensorView, local: int, row: EmbeddingView) -> bool {
    match row {
        EmbeddingView::Bf16 { bytes, cols } => {
            &&& is_bf16(t)
            &&& cols == t.dims[1]
            &&& bytes.len() == 2 * cols
            &&& local * (2 * cols) + 2 * cols <= t.data.len()
            &&& forall|i: int|
                0 <= i < bytes.len() ==> #[trigger] bytes[i] == t.data[local * (2 * cols) + i]
        },
        EmbeddingView::Int4 { bytes, cols, scale_bits, zero_point_bits } => {
            &&& !is_bf16(t)
            &&& cols == t.dims[1]
            &&& bytes.len() == (cols + 1) / 2
            &&& local * ((cols + 1) / 2) + (cols + 1) / 2 <= t.data.len()
            &&& scale_bits == t.scale_bits
            &&& zero_point_bits == t.zero_point_bits
            &&& forall|i: int|
                0 <= i < bytes.len() ==> #[trigger] bytes[i] == t.data[local * ((cols + 1) / 2) + i]
        },
    }
}

/// Tensor `i` of a block holds the row of a token: it is a matrix of embeddings whose
/// range of rows holds the token, and `row` is the row at its place in the range.
#[verifier::opaque]
pub open spec fn reads_row_at(b: BlockView, i: int, token: int, row: EmbeddingView) -> bool {
    b.tensor(i) matches Ok(t) && t.role() == TensorRole::Embed && t.dims.len() == 2 && (
    global_row_range(t.name, t.dims[0]) matches Ok(range) && range.0 <= token < range.1 && is_row(
        t,
        token - range.0,
        row,
    ))
}

/// Tensor `i` of a block is no matrix of embeddings, or its range of rows does not
/// hold the token.
#[verifier::opaque]
pub open spec fn misses_at(b: BlockView, i: int, token: int) -> bool {
    b.tensor(i) matches Ok(t) && (t.role() == TensorRole::Embed && t.dims.len() == 2 ==> (
    global_row_range(t.name, t.dims[0]) matches Ok(range) && !(range.0 <= token < range.1)))
}

proof fn lemma_embedding_row(t: TensorView, shape: MatrixShape, local: int, output_len: int)
    requires
        local >= 0,
        t.dims.len() == 2,
        shape.rows == t.dims[0],
        shape.cols == t.dims[1],
    ensures
        embedding_row(t, shape, local, output_len) matches Ok(row) ==> is_row(t, local, row),
{
    reveal(is_row);
    let wide = 2 * shape.cols as int;
    let packed = (shape.cols + 1) / 2;
    assert(local * wide >= 0 && local * packed >= 0) by (nonlinear_arith)
        requires
            local >= 0,
            wide >= 0,
            packed >= 0,
    ;
}

/// A search for the embedding of a token takes each tensor in turn: it passes over
/// one that misses the token, and gives the token's row of one that does not.
pub proof fn law_embedding_search_takes_turns(
    b: BlockView,
    token: int,
    output_len: int,
    from: int,
)
    requires
        0 <= from,
    ensures
        from >= b.count() ==> embedding_from(b, token, output_len, from) == Ok::<
            Option<EmbeddingView>,
            ComputeError,
        >(None),
        from < b.count() ==> match embedding_from(b, token, output_len, from) {
            Err(_) => true,
            Ok(None) => misses_at(b, from, token) && embedding_from(b, token, output_len, from + 1)
                == Ok::<Option<EmbeddingView>, ComputeError>(None),
            Ok(Some(row)) => reads_row_at(b, from, token, row) || (misses_at(b, from, token)
                && embedding_from(b, token, output_len, from + 1) == Ok::<
                Option<EmbeddingView>,
                ComputeError,
            >(Some(row))),
        },
{
    reveal(reads_row_at);
    reveal(misses_at);
    if from < b.count() && b.tensor(from) is Ok {
        let t = b.tensor(from)->Ok_0;
        if is_embedding(t) && global_row_range(t.name, t.dims[0]) is Ok {
            let range = global_row_range(t.name, t.dims[0])->Ok_0;
            if range.0 <= token < range.1 {
                lemma_embedding_row(
                    t,
                    MatrixShape { rows: t.dims[0], cols: t.dims[1] },
                    token - range.0,
                    output_len,
                );
            }
        }
    }
}

/// The values of a row are its bytes in pairs, each the upper half of a number.
pub proof fn law_row_values(row: &EmbeddingRow<'_>, values: Vec<u32>, i: int)
    requires
        row@.wf(),
        call_ensures(EmbeddingRow::bf16_values, (row,), Some(values)),
        0 <= i < values@.len(),
    ensures
        row@ matches EmbeddingView::Bf16 { bytes, cols } && values@.len() == cols && values@[i]
            as int == 0x1_0000 * bytes[2 * i] + 0x100_0000 * bytes[2 * i + 1],
{
}

/// The embedding of a token is its row in the first tensor that does not miss it;
/// there is none where all tensors miss it.
pub proof fn law_tokens_read_their_own_row(
    b: BlockView,
    token: int,
    output_len: int,
    from: int,
) -> (i: int)
    requires
        0 <= from <= b.count(),
    ensures
        match embedding_from(b, token, output_len, from) {
            Ok(Some(row)) => from <= i < b.count() && reads_row_at(b, i, token, row) && forall|j: int|
                from <= j < i ==> #[trigger] misses_at(b, j, token),
            Ok(None) => forall|j: int| from <= j < b.count() ==> #[trigger] misses_at(b, j, token),
            Err(_) => true,
        },
    decreases b.count() - from,
{
    law_embedding_search_takes_turns(b, token, output_len, from);
    let found = embedding_from(b, token, output_len, from);
    if from >= b.count() || found is Err || (found->Ok_0 is Some && reads_row_at(
        b,
        from,
        token,
        found->Ok_0->0,
    )) {
        from
    } else {
        law_tokens_read_their_own_row(b, token, output_len, from + 1)
    }
}

/// What `plan_token_embedding` finds: the row of the token in the first tensor of the
/// block that does not miss it.
pub proof fn law_plan_token_embedding(
    block: &[u8],
    token_id: u32,
    output_len: usize,
    row: EmbeddingRow<'_>,
) -> (i: int)
    requires
        token_id <= usize::MAX,
        call_ensures(
            plan_token_embedding,
            (block, token_id, output_len),
            Ok::<Option<EmbeddingRow<'_>>, ComputeError>(Some(row)),
        ),
    ensures
        parsed_block(block@) matches Ok(b) && 0 <= i < b.count() && reads_row_at(
            b,
            i,
            token_id as int,
            row@,
        ) && forall|j: int| 0 <= j < i ==> #[trigger] misses_at(b, j, token_id as int),
{
    law_tokens_read_their_own_row(
        parsed_block(block@)->Ok_0,
        token_id as int,
        output_len as int,
        0,
    )
}

} // verus!
