//! What a matrix-vector product reads: which rows of which tensor, with which
//! scales, once every length has been checked.

use crate::compute::config::packed_i4_row_bytes;
use crate::compute::error::{ComputeError, DiskQuantFormat};
use crate::compute::lookup::{dims2, fp8_scale_for_weight, tensor_matrix_shape, MatrixShape};
use crate::compute::quant_block::{QuantBlockLayout, QuantTensorLayout};
use crate::deepseek_v4::{
    cut_rows, div_ceil, QUANT_DEEPSEEK_BF16_AUX, QUANT_DEEPSEEK_FP8_E4M3,
    QUANT_DEEPSEEK_UE8M0_SCALE,
};
use vstd::prelude::*;

verus! {

use crate::compute::error::agrees;
use crate::compute::lookup::{fp8_scale_of, matrix_shape};
use crate::compute::quant_block::{BlockView, TensorView};
use crate::deepseek_v4::{cuts, nibble_at};
use crate::floats::magnitude_bits;

/// Rows of an FP8 matrix with a power-of-two scale for every block of
/// `row_group` by `col_group` weights.
#[derive(Clone, Copy, Debug)]
pub struct Fp8Rows<'a> {
    pub weight: &'a [u8],
    pub scale: &'a [u8],
    pub row_start: usize,
    pub row_end: usize,
    pub cols: usize,
    pub scale_cols: usize,
    pub row_group: usize,
    pub col_group: usize,
}

/// What the rows of an FP8 matrix hold.
#[verifier::ext_equal]
pub struct Fp8RowsView {
    pub weight: Seq<u8>,
    pub scale: Seq<u8>,
    pub row_start: usize,
    pub row_end: usize,
    pub cols: usize,
    pub scale_cols: usize,
    pub row_group: usize,
    pub col_group: usize,
}

impl<'a> View for Fp8Rows<'a> {
    type V = Fp8RowsView;

    open spec fn view(&self) -> Fp8RowsView {
        Fp8RowsView {
            weight: self.weight@,
            scale: self.scale@,
            row_start: self.row_start,
            row_end: self.row_end,
            cols: self.cols,
            scale_cols: self.scale_cols,
            row_group: self.row_group,
            col_group: self.col_group,
        }
    }
}

impl Fp8RowsView {
    /// Every row lies in the data, and so do its scales.
    pub open spec fn wf(self) -> bool {
        &&& self.row_start < self.row_end
        &&& self.cols > 0
        &&& self.scale_cols > 0
        &&& self.row_group > 0
        &&& self.col_group > 0
        &&& self.scale_cols * self.col_group == self.cols
        &&& self.row_end * self.cols <= self.weight.len()
        &&& forall|row: int|
            self.row_start <= row < self.row_end ==> (#[trigger] (row / self.row_group as int) + 1)
                * self.scale_cols <= self.scale.len()
    }

    /// Number of weights that are gone through for one input.
    pub open spec fn values(self) -> int {
        (self.row_end - self.row_start) * self.cols
    }

    /// The weights of a row.
    pub open spec fn weights(self, row: int) -> Seq<u8> {
        self.weight.subrange(row * self.cols, row * self.cols + self.cols)
    }

    /// The scales of a row, one for every `col_group` columns.
    pub open spec fn scales(self, row: int) -> Seq<u8> {
        let at = (row / self.row_group as int) * self.scale_cols;
        self.scale.subrange(at, at + self.scale_cols)
    }
}

impl<'a> Fp8Rows<'a> {
    /// The weights and the scales of a row.
    pub fn row(&self, row: usize) -> (parts: (&'a [u8], &'a [u8]))
        requires
            self@.wf(),
            self.row_start <= row < self.row_end,
        ensures
            parts.0@ == self@.weights(row as int),
            parts.1@ == self@.scales(row as int),
            parts.0@.len() == self.cols,
            parts.1@.len() == self.scale_cols,
    {
        let ghost group = row as int / self.row_group as int;
        proof {
            assert(0 <= row * self.cols && row * self.cols + self.cols <= self.row_end * self.cols)
                by (nonlinear_arith)
                requires
                    row + 1 <= self.row_end,
                    self.cols > 0,
            ;
            assert((group + 1) * self.scale_cols <= self.scale@.len());
            assert((group + 1) * self.scale_cols == group * self.scale_cols + self.scale_cols)
                by (nonlinear_arith);
            assert(0 <= group) by (nonlinear_arith)
                requires
                    group == row as int / self.row_group as int,
                    self.row_group > 0,
            ;
            assert(0 <= group * self.scale_cols) by (nonlinear_arith)
                requires
                    0 <= group,
            ;
            assert(self.weight@.len() == self.weight.len());
            assert(self.scale@.len() == self.scale.len());
        }
        let start: usize = row * self.cols;
        let at: usize = (row / self.row_group) * self.scale_cols;
        (&self.weight[start..start + self.cols], &self.scale[at..at + self.scale_cols])
    }
}

/// Is the scale tensor usable for a matrix of this shape, and if not, why?
pub open spec fn fp8_scale_error(shape: MatrixShape, scale: TensorView) -> Option<ComputeError> {
    if scale.dims.len() != 2 {
        Some(ComputeError::InvalidShape("DeepSeek FP8 scale rank"))
    } else if shape.rows == 0 || shape.cols == 0 || scale.dims[0] == 0 || scale.dims[1] == 0
        || shape.rows % scale.dims[0] != 0 || shape.cols % scale.dims[1] != 0 {
        Some(ComputeError::InvalidShape("DeepSeek FP8 scale shape"))
    } else {
        None
    }
}

/// Are the scale tensor's data complete, and if not, why?
pub open spec fn fp8_scale_data_error(scale: TensorView) -> Option<ComputeError> {
    if scale.dims[0] * scale.dims[1] > usize::MAX {
        Some(ComputeError::InvalidShape("DeepSeek FP8 scale count overflow"))
    } else if scale.data.len() < scale.dims[0] * scale.dims[1] {
        Some(ComputeError::InvalidShape("DeepSeek FP8 scale data too small"))
    } else {
        None
    }
}

/// The rows `row_start` to `row_end` of a weight with its scale.
pub open spec fn fp8_rows_of(
    weight: TensorView,
    scale: TensorView,
    row_start: int,
    row_end: int,
) -> Fp8RowsView {
    Fp8RowsView {
        weight: weight.data,
        scale: scale.data,
        row_start: row_start as usize,
        row_end: row_end as usize,
        cols: weight.dims[1],
        scale_cols: scale.dims[1],
        row_group: (weight.dims[0] as int / scale.dims[0] as int) as usize,
        col_group: (weight.dims[1] as int / scale.dims[1] as int) as usize,
    }
}

/// The plan of a product with a whole FP8 matrix.
pub open spec fn fp8_whole(
    weight: TensorView,
    scale: TensorView,
    input_len: int,
    output_len: int,
) -> Result<Fp8RowsView, ComputeError> {
    if scale.quant_format != QUANT_DEEPSEEK_UE8M0_SCALE {
        Err(ComputeError::InvalidQuantBlock("DeepSeek FP8 scale is not UE8M0"))
    } else {
        match matrix_shape(weight) {
            Err(error) => Err(error),
            Ok(shape) => match fp8_scale_error(shape, scale) {
                Some(error) => Err(error),
                None => if input_len < shape.cols {
                    Err(ComputeError::InvalidShape("DeepSeek FP8 GEMV input too small"))
                } else if output_len < shape.rows {
                    Err(
                        ComputeError::OutputTooSmall {
                            required: shape.rows,
                            actual: output_len as usize,
                        },
                    )
                } else if shape.rows * shape.cols > usize::MAX {
                    Err(ComputeError::InvalidShape("matrix element count overflow"))
                } else if weight.data.len() < shape.rows * shape.cols {
                    Err(ComputeError::InvalidShape("DeepSeek FP8 weight data too small"))
                } else {
                    match fp8_scale_data_error(scale) {
                        Some(error) => Err(error),
                        None => Ok(fp8_rows_of(weight, scale, 0, shape.rows as int)),
                    }
                },
            },
        }
    }
}

/// All rows of a matrix as some rows of it: the plans are the same.
pub proof fn lemma_part_is_whole(
    weight: TensorView,
    scale: TensorView,
    input_len: int,
    output_len: int,
)
    requires
        weight.dims.len() == 2,
    ensures
        ({
            let whole = fp8_whole(weight, scale, input_len, output_len);
            let part = fp8_part(
                weight,
                scale,
                0,
                weight.dims[0] as int,
                input_len,
                output_len,
            );
            &&& whole is Ok <==> part is Ok
            &&& whole is Ok ==> whole == part && weight.dims[0] * weight.dims[1] <= usize::MAX
                && whole->Ok_0.values() == weight.dims[0] * weight.dims[1]
        }),
{
    assert(weight.dims[0] * weight.dims[1] == weight.dims[1] * weight.dims[0]) by (nonlinear_arith);
    let cols = weight.dims[1] as int;
    let rows = weight.dims[0] as int;
    if input_len >= cols && output_len >= rows {
        lemma_all_long(seq![input_len], cols, 0);
        lemma_all_long(seq![output_len], rows, 0);
    } else if fp8_part(weight, scale, 0, rows, input_len, output_len) is Ok {
        lemma_no_short(seq![input_len], cols, 0);
        lemma_no_short(seq![output_len], rows, 0);
        assert(seq![input_len][0] >= cols);
        assert(seq![output_len][0] >= rows);
    }
}

/// The plan of a product with some rows of an FP8 matrix.
pub open spec fn fp8_part(
    weight: TensorView,
    scale: TensorView,
    row_start: int,
    row_end: int,
    input_len: int,
    output_len: int,
) -> Result<Fp8RowsView, ComputeError> {
    if scale.quant_format != QUANT_DEEPSEEK_UE8M0_SCALE {
        Err(ComputeError::InvalidQuantBlock("DeepSeek FP8 scale is not UE8M0"))
    } else {
        fp8_rows_checked(weight, scale, row_start, row_end, seq![input_len], seq![output_len])
    }
}

/// The index of the first output that is shorter than `rows`.
pub open spec fn first_short(lens: Seq<int>, rows: int, from: int) -> Option<int>
    decreases lens.len() - from,
{
    if from >= lens.len() {
        None
    } else if lens[from] < rows {
        Some(from)
    } else {
        first_short(lens, rows, from + 1)
    }
}

/// Where no length is short, each of them is long enough.
pub proof fn lemma_no_short(lens: Seq<int>, rows: int, from: int)
    requires
        0 <= from,
        first_short(lens, rows, from) is None,
    ensures
        forall|i: int| from <= i < lens.len() ==> #[trigger] lens[i] >= rows,
    decreases lens.len() - from,
{
    if from < lens.len() {
        lemma_no_short(lens, rows, from + 1);
    }
}

/// Where each length is long enough, none is short.
proof fn lemma_all_long(lens: Seq<int>, rows: int, from: int)
    requires
        0 <= from,
        forall|i: int| from <= i < lens.len() ==> #[trigger] lens[i] >= rows,
    ensures
        first_short(lens, rows, from) is None,
    decreases lens.len() - from,
{
    if from < lens.len() {
        lemma_all_long(lens, rows, from + 1);
    }
}

/// The plan of products of some rows with several inputs.
pub open spec fn fp8_rows_checked(
    weight: TensorView,
    scale: TensorView,
    row_start: int,
    row_end: int,
    inputs: Seq<int>,
    outputs: Seq<int>,
) -> Result<Fp8RowsView, ComputeError> {
    match matrix_shape(weight) {
        Err(error) => Err(error),
        Ok(shape) => if row_start >= row_end || row_end > shape.rows {
            Err(ComputeError::InvalidShape("DeepSeek FP8 row range"))
        } else {
            match fp8_scale_error(shape, scale) {
                Some(error) => Err(error),
                None => if first_short(inputs, shape.cols as int, 0) is Some {
                    Err(ComputeError::InvalidShape("DeepSeek FP8 GEMV input too small"))
                } else if first_short(outputs, row_end - row_start, 0) is Some {
                    Err(
                        ComputeError::OutputTooSmall {
                            required: (row_end - row_start) as usize,
                            actual: outputs[first_short(
                                outputs,
                                row_end - row_start,
                                0,
                            )->0] as usize,
                        },
                    )
                } else if shape.cols * row_end > usize::MAX {
                    Err(ComputeError::InvalidShape("DeepSeek FP8 bytes overflow"))
                } else if weight.data.len() < shape.cols * row_end {
                    Err(ComputeError::InvalidShape("DeepSeek FP8 weight data too small"))
                } else {
                    match fp8_scale_data_error(scale) {
                        Some(error) => Err(error),
                        None => Ok(fp8_rows_of(weight, scale, row_start, row_end)),
                    }
                },
            }
        },
    }
}

proof fn lemma_fp8_rows_wf(weight: TensorView, scale: TensorView, row_start: int, row_end: int)
    requires
        matrix_shape(weight) is Ok,
        fp8_scale_error(matrix_shape(weight)->Ok_0, scale) is None,
        fp8_scale_data_error(scale) is None,
        0 <= row_start < row_end <= weight.dims[0],
        weight.dims[1] * row_end <= weight.data.len(),
    ensures
        fp8_rows_of(weight, scale, row_start, row_end).wf(),
{
    let rows = weight.dims[0] as int;
    let cols = weight.dims[1] as int;
    let scale_rows = scale.dims[0] as int;
    let scale_cols = scale.dims[1] as int;
    let view = fp8_rows_of(weight, scale, row_start, row_end);
    let row_group = rows / scale_rows;
    let col_group = cols / scale_cols;
    vstd::arithmetic::div_mod::lemma_fundamental_div_mod(rows, scale_rows);
    vstd::arithmetic::div_mod::lemma_fundamental_div_mod(cols, scale_cols);
    assert(row_group > 0) by (nonlinear_arith)
        requires
            scale_rows * row_group == rows,
            rows > 0,
            scale_rows > 0,
    ;
    assert(col_group > 0) by (nonlinear_arith)
        requires
            scale_cols * col_group == cols,
            cols > 0,
            scale_cols > 0,
    ;
    assert(row_group <= rows) by (nonlinear_arith)
        requires
            scale_rows * row_group == rows,
            row_group > 0,
            scale_rows >= 1,
    ;
    assert(col_group <= cols) by (nonlinear_arith)
        requires
            scale_cols * col_group == cols,
            col_group > 0,
            scale_cols >= 1,
    ;
    assert(row_end * cols == cols * row_end) by (nonlinear_arith);
    assert forall|row: int| row_start <= row < row_end implies (#[trigger] (row
        / view.row_group as int) + 1) * view.scale_cols <= scale.data.len() by {
        let group = row / row_group;
        assert(group < scale_rows) by (nonlinear_arith)
            requires
                group == row / row_group,
                0 <= row < scale_rows * row_group,
                row_group > 0,
        ;
        assert((group + 1) * scale_cols <= scale_rows * scale_cols) by (nonlinear_arith)
            requires
                group + 1 <= scale_rows,
                scale_cols > 0,
        ;
    }
}

fn check_fp8_scale(shape: MatrixShape, scale: &QuantTensorLayout<'_>) -> (error: Option<
    ComputeError,
>)
    ensures
        error == fp8_scale_error(shape, scale@),
{
    if scale.shape.rank() != 2 {
        return Some(ComputeError::InvalidShape("DeepSeek FP8 scale rank"));
    }
    let (scale_rows, scale_cols): (usize, usize) = dims2(scale);
    if shape.rows == 0 || shape.cols == 0 || scale_rows == 0 || scale_cols == 0 || shape.rows
        % scale_rows != 0 || shape.cols % scale_cols != 0 {
        return Some(ComputeError::InvalidShape("DeepSeek FP8 scale shape"));
    }
    None
}

fn check_fp8_scale_data(scale: &QuantTensorLayout<'_>) -> (error: Option<ComputeError>)
    requires
        scale@.dims.len() == 2,
    ensures
        error == fp8_scale_data_error(scale@),
{
    let (scale_rows, scale_cols): (usize, usize) = dims2(scale);
    match scale_rows.checked_mul(scale_cols) {
        None => Some(ComputeError::InvalidShape("DeepSeek FP8 scale count overflow")),
        Some(values) => if scale.data.len() < values {
            Some(ComputeError::InvalidShape("DeepSeek FP8 scale data too small"))
        } else {
            None
        },
    }
}

fn make_fp8_rows<'a>(
    weight: QuantTensorLayout<'a>,
    scale: QuantTensorLayout<'a>,
    row_start: usize,
    row_end: usize,
) -> (rows: Fp8Rows<'a>)
    requires
        matrix_shape(weight@) is Ok,
        fp8_scale_error(matrix_shape(weight@)->Ok_0, scale@) is None,
    ensures
        rows@ == fp8_rows_of(weight@, scale@, row_start as int, row_end as int),
{
    let (total_rows, cols): (usize, usize) = dims2(&weight);
    let (scale_rows, scale_cols): (usize, usize) = dims2(&scale);
    Fp8Rows {
        weight: weight.data,
        scale: scale.data,
        row_start,
        row_end,
        cols,
        scale_cols,
        row_group: total_rows / scale_rows,
        col_group: cols / scale_cols,
    }
}

/// Plans the product of a whole FP8 matrix with an input.
pub fn plan_fp8_tensorwise<'a>(
    weight: QuantTensorLayout<'a>,
    scale: QuantTensorLayout<'a>,
    input_len: usize,
    output_len: usize,
) -> (result: Result<Fp8Rows<'a>, ComputeError>)
    ensures
        agrees(result, fp8_whole(weight@, scale@, input_len as int, output_len as int)),
        result matches Ok(rows) ==> rows@.wf(),
{
    if scale.quant_format != QUANT_DEEPSEEK_UE8M0_SCALE {
        return Err(ComputeError::InvalidQuantBlock("DeepSeek FP8 scale is not UE8M0"));
    }
    let shape: MatrixShape = match tensor_matrix_shape(weight) {
        Ok(shape) => shape,
        Err(error) => return Err(error),
    };
    match check_fp8_scale(shape, &scale) {
        Some(error) => return Err(error),
        None => {},
    }
    if input_len < shape.cols {
        return Err(ComputeError::InvalidShape("DeepSeek FP8 GEMV input too small"));
    }
    if output_len < shape.rows {
        return Err(ComputeError::OutputTooSmall { required: shape.rows, actual: output_len });
    }
    let values: usize = match shape.elements() {
        Ok(values) => values,
        Err(error) => return Err(error),
    };
    if weight.data.len() < values {
        return Err(ComputeError::InvalidShape("DeepSeek FP8 weight data too small"));
    }
    match check_fp8_scale_data(&scale) {
        Some(error) => return Err(error),
        None => {},
    }
    proof {
        assert(shape.rows * shape.cols == shape.cols * shape.rows) by (nonlinear_arith);
        lemma_fp8_rows_wf(weight@, scale@, 0, shape.rows as int);
    }
    Ok(make_fp8_rows(weight, scale, 0, shape.rows))
}

spec fn ints(lens: Seq<usize>) -> Seq<int> {
    lens.map_values(|len: usize| len as int)
}

fn find_short(lens: &[usize], rows: usize) -> (found: Option<usize>)
    ensures
        match found {
            Some(i) => first_short(ints(lens@), rows as int, 0) == Some(i as int) && i
                < lens@.len(),
            None => first_short(ints(lens@), rows as int, 0) is None,
        },
{
    let mut i: usize = 0;
    while i < lens.len()
        invariant
            i <= lens@.len(),
            first_short(ints(lens@), rows as int, 0) == first_short(
                ints(lens@),
                rows as int,
                i as int,
            ),
        decreases lens@.len() - i,
    {
        if lens[i] < rows {
            return Some(i);
        }
        i += 1;
    }
    None
}

fn plan_fp8_rows_checked<'a>(
    weight: QuantTensorLayout<'a>,
    scale: QuantTensorLayout<'a>,
    row_start: usize,
    row_end: usize,
    inputs: &[usize],
    outputs: &[usize],
) -> (result: Result<Fp8Rows<'a>, ComputeError>)
    ensures
        agrees(
            result,
            fp8_rows_checked(
                weight@,
                scale@,
                row_start as int,
                row_end as int,
                ints(inputs@),
                ints(outputs@),
            ),
        ),
        result matches Ok(rows) ==> rows@.wf(),
{
    let shape: MatrixShape = match tensor_matrix_shape(weight) {
        Ok(shape) => shape,
        Err(error) => return Err(error),
    };
    if row_start >= row_end || row_end > shape.rows {
        return Err(ComputeError::InvalidShape("DeepSeek FP8 row range"));
    }
    match check_fp8_scale(shape, &scale) {
        Some(error) => return Err(error),
        None => {},
    }
    match find_short(inputs, shape.cols) {
        Some(_) => return Err(ComputeError::InvalidShape("DeepSeek FP8 GEMV input too small")),
        None => {},
    }
    let rows: usize = row_end - row_start;
    match find_short(outputs, rows) {
        Some(i) => return Err(
            ComputeError::OutputTooSmall { required: rows, actual: outputs[i] },
        ),
        None => {},
    }
    let required: usize = match shape.cols.checked_mul(row_end) {
        Some(bytes) => bytes,
        None => return Err(ComputeError::InvalidShape("DeepSeek FP8 bytes overflow")),
    };
    if weight.data.len() < required {
        return Err(ComputeError::InvalidShape("DeepSeek FP8 weight data too small"));
    }
    match check_fp8_scale_data(&scale) {
        Some(error) => return Err(error),
        None => {},
    }
    proof {
        lemma_fp8_rows_wf(weight@, scale@, row_start as int, row_end as int);
    }
    Ok(make_fp8_rows(weight, scale, row_start, row_end))
}

/// Plans the product of the rows `row_start` to `row_end` of an FP8 matrix
/// with an input. The scales go by the row of the whole matrix.
pub fn plan_fp8_rows<'a>(
    weight: QuantTensorLayout<'a>,
    scale: QuantTensorLayout<'a>,
    row_start: usize,
    row_end: usize,
    input_len: usize,
    output_len: usize,
) -> (result: Result<Fp8Rows<'a>, ComputeError>)
    ensures
        agrees(
            result,
            fp8_part(
                weight@,
                scale@,
                row_start as int,
                row_end as int,
                input_len as int,
                output_len as int,
            ),
        ),
        result matches Ok(rows) ==> rows@.wf(),
{
    if scale.quant_format != QUANT_DEEPSEEK_UE8M0_SCALE {
        return Err(ComputeError::InvalidQuantBlock("DeepSeek FP8 scale is not UE8M0"));
    }
    let inputs: [usize; 1] = [input_len];
    let outputs: [usize; 1] = [output_len];
    proof {
        assert(ints(inputs@) =~= seq![input_len as int]);
        assert(ints(outputs@) =~= seq![output_len as int]);
    }
    plan_fp8_rows_checked(weight, scale, row_start, row_end, &inputs, &outputs)
}

/// The plan of products of some rows of an FP8 matrix with several inputs.
pub open spec fn fp8_multi(
    weight: TensorView,
    scale: TensorView,
    row_start: int,
    row_end: int,
    inputs: Seq<usize>,
    outputs: Seq<usize>,
) -> Result<Fp8RowsView, ComputeError> {
    if scale.quant_format != QUANT_DEEPSEEK_UE8M0_SCALE {
        Err(ComputeError::InvalidQuantBlock("DeepSeek FP8 scale is not UE8M0"))
    } else if inputs.len() == 0 || outputs.len() != inputs.len() {
        Err(ComputeError::InvalidShape("FP8 multi GEMV input/output count"))
    } else {
        fp8_rows_checked(
            weight,
            scale,
            row_start,
            row_end,
            inputs.map_values(|len: usize| len as int),
            outputs.map_values(|len: usize| len as int),
        )
    }
}

/// Plans the products of the rows `row_start` to `row_end` of an FP8 matrix
/// with several inputs, so that every row is read once for all of them. The
/// arguments are the lengths of the inputs and of the outputs.
pub fn plan_fp8_rows_multi<'a>(
    weight: QuantTensorLayout<'a>,
    scale: QuantTensorLayout<'a>,
    row_start: usize,
    row_end: usize,
    inputs: &[usize],
    outputs: &[usize],
) -> (result: Result<Fp8Rows<'a>, ComputeError>)
    ensures
        agrees(
            result,
            fp8_multi(weight@, scale@, row_start as int, row_end as int, inputs@, outputs@),
        ),
        result matches Ok(rows) ==> rows@.wf(),
{
    if scale.quant_format != QUANT_DEEPSEEK_UE8M0_SCALE {
        return Err(ComputeError::InvalidQuantBlock("DeepSeek FP8 scale is not UE8M0"));
    }
    if inputs.len() == 0 || outputs.len() != inputs.len() {
        return Err(ComputeError::InvalidShape("FP8 multi GEMV input/output count"));
    }
    plan_fp8_rows_checked(weight, scale, row_start, row_end, inputs, outputs)
}

/// Why the product of a row with an input is refused, if it is: infinities and
/// values that are no number are.
pub open spec fn fp8_output_error(bits: u32) -> Option<ComputeError> {
    if magnitude_bits(bits) >= 0x7f80_0000 {
        Some(ComputeError::InvalidShape("DeepSeek FP8 GEMV non-finite output"))
    } else {
        None
    }
}

/// Tests the product of a row with an input.
pub fn check_fp8_output(bits: u32) -> (error: Option<ComputeError>)
    ensures
        error == fp8_output_error(bits),
{
    if bits % 2147483648 >= 0x7f80_0000 {
        Some(ComputeError::InvalidShape("DeepSeek FP8 GEMV non-finite output"))
    } else {
        None
    }
}

/// Rows that one thread takes of a product with several inputs.
pub open spec fn multi_chunk_rows(rows: int, threads: int) -> int {
    let workers = if threads < 1 {
        1
    } else {
        threads
    };
    let share = (rows + workers - 1) / workers;
    if threads <= 1 || rows <= 8 || rows <= share {
        rows
    } else if share < 8 {
        8
    } else {
        share
    }
}

/// Cuts the rows of a product with several inputs into whole rows per thread.
pub fn multi_row_chunks(rows: usize, threads: usize) -> (chunks: Vec<(usize, usize)>)
    ensures
        cuts(chunks@, rows as int, multi_chunk_rows(rows as int, threads as int)),
{
    if threads <= 1 {
        return cut_rows(rows, rows);
    }
    let share: usize = div_ceil(rows, threads);
    let step: usize = if share < 8 {
        8
    } else {
        share
    };
    if rows <= step {
        return cut_rows(rows, rows);
    }
    cut_rows(rows, step)
}

/// Weights that a product of `rows` rows with `count` inputs goes through.
pub fn multi_values(rows: usize, cols: usize, count: usize) -> (result: Result<usize, ComputeError>)
    ensures
        result == if rows * cols <= usize::MAX && rows * cols * count <= usize::MAX {
            Ok::<usize, ComputeError>((rows * cols * count) as usize)
        } else {
            Err(ComputeError::InvalidShape("DeepSeek FP8 values overflow"))
        },
{
    match rows.checked_mul(cols) {
        Some(values) => match values.checked_mul(count) {
            Some(total) => Ok(total),
            None => Err(ComputeError::InvalidShape("DeepSeek FP8 values overflow")),
        },
        None => Err(ComputeError::InvalidShape("DeepSeek FP8 values overflow")),
    }
}

/// `output` with the results of input `index` in its first elements, out of
/// row-major results of `count` inputs.
pub open spec fn scattered<T>(
    flat: Seq<T>,
    count: int,
    index: int,
    rows: int,
    output: Seq<T>,
) -> Seq<T> {
    Seq::new(
        output.len(),
        |row: int|
            if row < rows {
                flat[row * count + index]
            } else {
                output[row]
            },
    )
}

/// Copies the results of input `index` out of row-major results of `count`
/// inputs.
pub fn scatter_rows<T: Copy>(
    flat: &[T],
    count: usize,
    index: usize,
    rows: usize,
    output: &mut [T],
)
    requires
        index < count,
        rows * count <= flat@.len(),
        rows <= old(output)@.len(),
    ensures
        final(output)@ == scattered(
            flat@,
            count as int,
            index as int,
            rows as int,
            old(output)@,
        ),
{
    let mut row: usize = 0;
    while row < rows
        invariant
            row <= rows,
            index < count,
            rows * count <= flat.len(),
            rows <= output@.len(),
            output@.len() == old(output)@.len(),
            forall|r: int| 0 <= r < row ==> #[trigger] output@[r] == flat@[r * count + index],
            forall|r: int| row <= r < output@.len() ==> #[trigger] output@[r] == old(output)@[r],
        decreases rows - row,
    {
        proof {
            assert(0 <= row * count && row * count + count <= rows * count) by (nonlinear_arith)
                requires
                    row + 1 <= rows,
            ;
        }
        output[row] = flat[row * count + index];
        row += 1;
    }
    proof {
        assert(output@ =~= scattered(
            flat@,
            count as int,
            index as int,
            rows as int,
            old(output)@,
        ));
    }
}

/// `output` with the products of the planned rows in its first elements, where
/// `dot` is what the weights and the scales of a row give.
pub open spec fn rows_written<T>(
    plan: Fp8RowsView,
    dot: spec_fn(Seq<u8>, Seq<u8>) -> T,
    output: Seq<T>,
) -> Seq<T> {
    Seq::new(
        output.len(),
        |row: int|
            if row < plan.row_end - plan.row_start {
                dot(plan.weights(plan.row_start + row), plan.scales(plan.row_start + row))
            } else {
                output[row]
            },
    )
}

/// The products of the planned rows with `count` inputs, row by row, where `dot`
/// is what the weights and the scales of a row give with an input.
pub open spec fn flat_products<T>(
    plan: Fp8RowsView,
    count: int,
    dot: spec_fn(Seq<u8>, Seq<u8>, int) -> T,
) -> Seq<T> {
    Seq::new(
        ((plan.row_end - plan.row_start) * count) as nat,
        |at: int|
            dot(
                plan.weights(plan.row_start + at / count),
                plan.scales(plan.row_start + at / count),
                at % count,
            ),
    )
}

/// Several inputs can be multiplied with rows at once exactly where each of them
/// can alone, and they go through the same rows with the same scales.
pub proof fn law_several_inputs_share_rows(
    weight: TensorView,
    scale: TensorView,
    row_start: int,
    row_end: int,
    inputs: Seq<usize>,
    outputs: Seq<usize>,
)
    requires
        inputs.len() > 0,
        outputs.len() == inputs.len(),
    ensures
        fp8_multi(weight, scale, row_start, row_end, inputs, outputs) is Ok <==> forall|i: int|
            0 <= i < inputs.len() ==> fp8_part(
                weight,
                scale,
                row_start,
                row_end,
                #[trigger] inputs[i] as int,
                outputs[i] as int,
            ) is Ok,
        fp8_multi(weight, scale, row_start, row_end, inputs, outputs) is Ok ==> forall|i: int|
            0 <= i < inputs.len() ==> fp8_part(
                weight,
                scale,
                row_start,
                row_end,
                #[trigger] inputs[i] as int,
                outputs[i] as int,
            ) == fp8_multi(weight, scale, row_start, row_end, inputs, outputs),
{
    let ins = inputs.map_values(|len: usize| len as int);
    let outs = outputs.map_values(|len: usize| len as int);
    let cols = weight.dims[1] as int;
    let rows = row_end - row_start;
    let multi = fp8_multi(weight, scale, row_start, row_end, inputs, outputs);
    if multi is Ok {
        lemma_no_short(ins, cols, 0);
        lemma_no_short(outs, rows, 0);
        assert forall|i: int| 0 <= i < inputs.len() implies fp8_part(
            weight,
            scale,
            row_start,
            row_end,
            #[trigger] inputs[i] as int,
            outputs[i] as int,
        ) == multi by {
            assert(ins[i] == inputs[i] && outs[i] == outputs[i]);
            lemma_all_long(seq![inputs[i] as int], cols, 0);
            lemma_all_long(seq![outputs[i] as int], rows, 0);
        }
    }
    if forall|i: int|
        0 <= i < inputs.len() ==> fp8_part(
            weight,
            scale,
            row_start,
            row_end,
            #[trigger] inputs[i] as int,
            outputs[i] as int,
        ) is Ok {
        assert forall|i: int| 0 <= i < ins.len() implies #[trigger] ins[i] >= cols by {
            assert(fp8_part(
                weight,
                scale,
                row_start,
                row_end,
                inputs[i] as int,
                outputs[i] as int,
            ) is Ok);
            lemma_no_short(seq![inputs[i] as int], cols, 0);
            assert(seq![inputs[i] as int][0] >= cols);
        }
        assert forall|i: int| 0 <= i < outs.len() implies #[trigger] outs[i] >= rows by {
            assert(fp8_part(
                weight,
                scale,
                row_start,
                row_end,
                inputs[i] as int,
                outputs[i] as int,
            ) is Ok);
            lemma_no_short(seq![outputs[i] as int], rows, 0);
            assert(seq![outputs[i] as int][0] >= rows);
        }
        lemma_all_long(ins, cols, 0);
        lemma_all_long(outs, rows, 0);
        assert(fp8_part(
            weight,
            scale,
            row_start,
            row_end,
            inputs[0] as int,
            outputs[0] as int,
        ) is Ok);
    }
}

/// Rows with several inputs leave in each output what the same rows leave there
/// with its input alone, whatever the product of a row with an input is, and
/// nothing behind the rows changes.
pub proof fn law_several_inputs_match_single<T>(
    weight: TensorView,
    scale: TensorView,
    row_start: int,
    row_end: int,
    inputs: Seq<usize>,
    outputs: Seq<usize>,
    dot: spec_fn(Seq<u8>, Seq<u8>, int) -> T,
    index: int,
    output: Seq<T>,
)
    requires
        0 <= row_start,
        fp8_multi(weight, scale, row_start, row_end, inputs, outputs) is Ok,
        0 <= index < inputs.len(),
        output.len() == outputs[index],
    ensures
        ({
            let multi = fp8_multi(weight, scale, row_start, row_end, inputs, outputs)->Ok_0;
            let single = fp8_part(
                weight,
                scale,
                row_start,
                row_end,
                inputs[index] as int,
                outputs[index] as int,
            );
            let count = inputs.len() as int;
            let left = scattered(
                flat_products(multi, count, dot),
                count,
                index,
                row_end - row_start,
                output,
            );
            &&& single is Ok
            &&& left == rows_written(
                single->Ok_0,
                |weights: Seq<u8>, scales: Seq<u8>| dot(weights, scales, index),
                output,
            )
            &&& left.skip(row_end - row_start) == output.skip(row_end - row_start)
        }),
{
    law_several_inputs_share_rows(weight, scale, row_start, row_end, inputs, outputs);
    let multi = fp8_multi(weight, scale, row_start, row_end, inputs, outputs)->Ok_0;
    let count = inputs.len() as int;
    let rows = row_end - row_start;
    let flat = flat_products(multi, count, dot);
    assert(fp8_part(
        weight,
        scale,
        row_start,
        row_end,
        inputs[index] as int,
        outputs[index] as int,
    ) == Ok::<Fp8RowsView, ComputeError>(multi));
    let outs = outputs.map_values(|len: usize| len as int);
    lemma_no_short(outs, rows, 0);
    assert(outs[index] >= rows);
    let left = scattered(flat, count, index, rows, output);
    let single = rows_written(
        multi,
        |weights: Seq<u8>, scales: Seq<u8>| dot(weights, scales, index),
        output,
    );
    assert forall|row: int| 0 <= row < output.len() implies left[row] == single[row] by {
        if row < rows {
            let at = row * count + index;
            assert(0 <= at < rows * count) by (nonlinear_arith)
                requires
                    at == row * count + index,
                    0 <= row,
                    row + 1 <= rows,
                    0 <= index < count,
            ;
            vstd::arithmetic::div_mod::lemma_fundamental_div_mod_converse(at, count, row, index);
        }
    }
    assert(left =~= single);
    assert(left.skip(rows) =~= output.skip(rows));
}

/// Rows of a BF16 matrix.
#[derive(Clone, Copy, Debug)]
pub struct Bf16Rows<'a> {
    pub data: &'a [u8],
    pub row_start: usize,
    pub row_end: usize,
    pub cols: usize,
}

/// What the rows of a BF16 matrix hold.
#[verifier::ext_equal]
pub struct Bf16RowsView {
    pub data: Seq<u8>,
    pub row_start: usize,
    pub row_end: usize,
    pub cols: usize,
}

impl<'a> View for Bf16Rows<'a> {
    type V = Bf16RowsView;

    open spec fn view(&self) -> Bf16RowsView {
        Bf16RowsView {
            data: self.data@,
            row_start: self.row_start,
            row_end: self.row_end,
            cols: self.cols,
        }
    }
}

impl Bf16RowsView {
    /// Every row lies in the data.
    pub open spec fn wf(self) -> bool {
        self.row_end * (2 * self.cols) <= self.data.len()
    }

    /// The bytes of a row.
    pub open spec fn bytes(self, row: int) -> Seq<u8> {
        self.data.subrange(row * (2 * self.cols), row * (2 * self.cols) + 2 * self.cols)
    }
}

impl<'a> Bf16Rows<'a> {
    /// The bytes of a row.
    pub fn row(&self, row: usize) -> (bytes: &'a [u8])
        requires
            self@.wf(),
            self.row_start <= row < self.row_end,
        ensures
            bytes@ == self@.bytes(row as int),
            bytes@.len() == 2 * self.cols,
    {
        let ghost width = 2 * self.cols as int;
        proof {
            assert(0 <= row * width && row * width + width <= self.row_end * width)
                by (nonlinear_arith)
                requires
                    row + 1 <= self.row_end,
                    width >= 0,
            ;
            assert(self.data@.len() == self.data.len());
        }
        let row_bytes: usize = self.cols * 2;
        let start: usize = row * row_bytes;
        &self.data[start..start + row_bytes]
    }
}

/// The plan of a product with some rows of a BF16 matrix, whose input and
/// output are long enough.
pub open spec fn bf16_checked(t: TensorView, row_start: int, row_end: int) -> Result<
    Bf16RowsView,
    ComputeError,
> {
    if 2 * t.dims[1] > usize::MAX {
        Err(ComputeError::InvalidShape("BF16 GEMV row bytes overflow"))
    } else if row_end * (2 * t.dims[1]) > usize::MAX {
        Err(ComputeError::InvalidShape("BF16 GEMV bytes overflow"))
    } else if t.data.len() < row_end * (2 * t.dims[1]) {
        Err(ComputeError::InvalidShape("BF16 GEMV tensor data too small"))
    } else {
        Ok(
            Bf16RowsView {
                data: t.data,
                row_start: row_start as usize,
                row_end: row_end as usize,
                cols: t.dims[1],
            },
        )
    }
}

/// The plan of a product with a whole BF16 matrix.
pub open spec fn bf16_whole(t: TensorView, input_len: int, output_len: int) -> Result<
    Bf16RowsView,
    ComputeError,
> {
    match matrix_shape(t) {
        Err(error) => Err(error),
        Ok(shape) => if input_len < shape.cols {
            Err(ComputeError::InvalidShape("BF16 GEMV input too small"))
        } else if output_len < shape.rows {
            Err(
                ComputeError::OutputTooSmall { required: shape.rows, actual: output_len as usize },
            )
        } else {
            bf16_checked(t, 0, shape.rows as int)
        },
    }
}

/// The plan of a product with some rows of a BF16 matrix.
pub open spec fn bf16_part(
    t: TensorView,
    row_start: int,
    row_end: int,
    input_len: int,
    output_len: int,
) -> Result<Bf16RowsView, ComputeError> {
    match matrix_shape(t) {
        Err(error) => Err(error),
        Ok(shape) => if row_start >= row_end || row_end > shape.rows {
            Err(ComputeError::InvalidShape("BF16 GEMV row range"))
        } else if input_len < shape.cols {
            Err(ComputeError::InvalidShape("BF16 GEMV input too small"))
        } else if output_len < row_end - row_start {
            Err(
                ComputeError::OutputTooSmall {
                    required: (row_end - row_start) as usize,
                    actual: output_len as usize,
                },
            )
        } else {
            bf16_checked(t, row_start, row_end)
        },
    }
}

fn plan_bf16_checked<'a>(
    tensor: QuantTensorLayout<'a>,
    shape: MatrixShape,
    row_start: usize,
    row_end: usize,
) -> (result: Result<Bf16Rows<'a>, ComputeError>)
    requires
        matrix_shape(tensor@) == Ok::<MatrixShape, ComputeError>(shape),
    ensures
        agrees(result, bf16_checked(tensor@, row_start as int, row_end as int)),
        result matches Ok(rows) ==> rows@.wf(),
{
    let row_bytes: usize = match shape.cols.checked_mul(2) {
        Some(bytes) => bytes,
        None => return Err(ComputeError::InvalidShape("BF16 GEMV row bytes overflow")),
    };
    let required: usize = match row_end.checked_mul(row_bytes) {
        Some(bytes) => bytes,
        None => return Err(ComputeError::InvalidShape("BF16 GEMV bytes overflow")),
    };
    if tensor.data.len() < required {
        return Err(ComputeError::InvalidShape("BF16 GEMV tensor data too small"));
    }
    Ok(Bf16Rows { data: tensor.data, row_start, row_end, cols: shape.cols })
}

/// Plans the product of a whole BF16 matrix with an input.
pub fn plan_bf16_tensorwise<'a>(
    tensor: QuantTensorLayout<'a>,
    input_len: usize,
    output_len: usize,
) -> (result: Result<Bf16Rows<'a>, ComputeError>)
    ensures
        agrees(result, bf16_whole(tensor@, input_len as int, output_len as int)),
        result matches Ok(rows) ==> rows@.wf(),
{
    let shape: MatrixShape = match tensor_matrix_shape(tensor) {
        Ok(shape) => shape,
        Err(error) => return Err(error),
    };
    if input_len < shape.cols {
        return Err(ComputeError::InvalidShape("BF16 GEMV input too small"));
    }
    if output_len < shape.rows {
        return Err(ComputeError::OutputTooSmall { required: shape.rows, actual: output_len });
    }
    plan_bf16_checked(tensor, shape, 0, shape.rows)
}

/// Plans the product of the rows `row_start` to `row_end` of a BF16 matrix
/// with an input.
pub fn plan_bf16_rows<'a>(
    tensor: QuantTensorLayout<'a>,
    row_start: usize,
    row_end: usize,
    input_len: usize,
    output_len: usize,
) -> (result: Result<Bf16Rows<'a>, ComputeError>)
    ensures
        agrees(
            result,
            bf16_part(
                tensor@,
                row_start as int,
                row_end as int,
                input_len as int,
                output_len as int,
            ),
        ),
        result matches Ok(rows) ==> rows@.wf(),
{
    let shape: MatrixShape = match tensor_matrix_shape(tensor) {
        Ok(shape) => shape,
        Err(error) => return Err(error),
    };
    if row_start >= row_end || row_end > shape.rows {
        return Err(ComputeError::InvalidShape("BF16 GEMV row range"));
    }
    if input_len < shape.cols {
        return Err(ComputeError::InvalidShape("BF16 GEMV input too small"));
    }
    let rows: usize = row_end - row_start;
    if output_len < rows {
        return Err(ComputeError::OutputTooSmall { required: rows, actual: output_len });
    }
    plan_bf16_checked(tensor, shape, row_start, row_end)
}

/// Rows of a matrix of four-bit weights with one scale and zero point,
/// single-precision patterns.
#[derive(Clone, Copy, Debug)]
pub struct Int4Rows<'a> {
    pub data: &'a [u8],
    pub rows: usize,
    pub cols: usize,
    pub scale_bits: u32,
    pub zero_point_bits: u32,
}

/// What the rows of a matrix of four-bit weights hold.
#[verifier::ext_equal]
pub struct Int4RowsView {
    pub data: Seq<u8>,
    pub rows: usize,
    pub cols: usize,
    pub scale_bits: u32,
    pub zero_point_bits: u32,
}

impl<'a> View for Int4Rows<'a> {
    type V = Int4RowsView;

    open spec fn view(&self) -> Int4RowsView {
        Int4RowsView {
            data: self.data@,
            rows: self.rows,
            cols: self.cols,
            scale_bits: self.scale_bits,
            zero_point_bits: self.zero_point_bits,
        }
    }
}

impl Int4RowsView {
    /// Row `row` lies in the data.
    pub open spec fn holds_row(self, row: int) -> bool {
        0 <= row && (row + 1) * ((self.cols + 1) / 2) <= self.data.len()
    }

    /// The weight at `row` and `col`, before scale and zero point.
    pub open spec fn nibble(self, row: int, col: int) -> u8 {
        nibble_at(self.data.skip(row * ((self.cols + 1) / 2)), col)
    }
}

impl<'a> Int4Rows<'a> {
    /// The packed bytes of a row. The data must reach that far: a block does
    /// not promise it.
    pub fn row(&self, row: usize) -> (bytes: &'a [u8])
        requires
            self@.holds_row(row as int),
        ensures
            bytes@.len() == (self.cols + 1) / 2,
            bytes@ == self@.data.subrange(
                row * ((self.cols + 1) / 2),
                row * ((self.cols + 1) / 2) + (self.cols + 1) / 2,
            ),
            forall|col: int|
                0 <= col < self.cols ==> #[trigger] nibble_at(bytes@, col) == self@.nibble(
                    row as int,
                    col,
                ),
    {
        let row_bytes: usize = packed_i4_row_bytes(self.cols);
        proof {
            assert((row + 1) * row_bytes == row * row_bytes + row_bytes) by (nonlinear_arith);
            assert(0 <= row * row_bytes) by (nonlinear_arith);
            assert(self.data@.len() == self.data.len());
        }
        let start: usize = row * row_bytes;
        &self.data[start..start + row_bytes]
    }

    /// Does the data reach to the end of the last row?
    pub fn is_complete(&self) -> (complete: bool)
        ensures
            complete == (self.rows * ((self.cols + 1) / 2) <= self@.data.len()),
    {
        match self.rows.checked_mul(packed_i4_row_bytes(self.cols)) {
            Some(bytes) => bytes <= self.data.len(),
            None => {
                assert(self.data@.len() == self.data.len());
                false
            },
        }
    }
}

/// Nibble `index` of packed bytes.
pub fn i4_nibble_at(bytes: &[u8], index: usize) -> (nibble: u8)
    requires
        index / 2 < bytes@.len(),
    ensures
        nibble == nibble_at(bytes@, index as int),
        nibble < 16,
{
    let byte: u8 = bytes[index / 2];
    if index % 2 == 0 {
        byte % 16
    } else {
        byte / 16
    }
}

/// Can a product with four-bit weights run, and if not, why?
pub open spec fn int4_error(rows: int, cols: int, scale_bits: u32, zero_point_bits: u32) -> Option<
    ComputeError,
> {
    if rows == 0 || cols == 0 {
        Some(ComputeError::InvalidShape("tensorwise GEMV dimensions must be non-zero"))
    } else if magnitude_bits(scale_bits) >= 0x7f80_0000 || magnitude_bits(zero_point_bits)
        >= 0x7f80_0000 {
        Some(ComputeError::InvalidQuantBlock("non-finite quant metadata"))
    } else {
        None
    }
}

/// Can a product with four-bit weights run?
pub fn check_int4_args(rows: usize, cols: usize, scale_bits: u32, zero_point_bits: u32) -> (error:
    Option<ComputeError>)
    ensures
        error == int4_error(rows as int, cols as int, scale_bits, zero_point_bits),
{
    if rows == 0 || cols == 0 {
        return Some(ComputeError::InvalidShape("tensorwise GEMV dimensions must be non-zero"));
    }
    if scale_bits % 0x8000_0000 >= 0x7f80_0000 || zero_point_bits % 0x8000_0000 >= 0x7f80_0000 {
        return Some(ComputeError::InvalidQuantBlock("non-finite quant metadata"));
    }
    None
}

/// What a matrix-vector product reads.
#[derive(Clone, Copy, Debug)]
pub enum GemvPlan<'a> {
    Fp8(Fp8Rows<'a>),
    Bf16(Bf16Rows<'a>),
    Int4(Int4Rows<'a>),
}

/// What a matrix-vector product reads, as contents.
pub enum GemvView {
    Fp8(Fp8RowsView),
    Bf16(Bf16RowsView),
    Int4(Int4RowsView),
}

impl<'a> View for GemvPlan<'a> {
    type V = GemvView;

    open spec fn view(&self) -> GemvView {
        match self {
            GemvPlan::Fp8(rows) => GemvView::Fp8(rows@),
            GemvPlan::Bf16(rows) => GemvView::Bf16(rows@),
            GemvPlan::Int4(rows) => GemvView::Int4(rows@),
        }
    }
}

impl GemvView {
    /// The rows that are read lie in the data; of four-bit weights nothing is
    /// promised.
    pub open spec fn wf(self) -> bool {
        match self {
            GemvView::Fp8(rows) => rows.wf(),
            GemvView::Bf16(rows) => rows.wf(),
            GemvView::Int4(_) => true,
        }
    }
}

/// A BF16 matrix.
pub open spec fn is_bf16(t: TensorView) -> bool {
    t.quant_format == QUANT_DEEPSEEK_BF16_AUX && t.dtype_original == 11
}

/// The plan of a product with a BF16 matrix or one of four-bit weights, and
/// the number of weights.
pub open spec fn gemv_plain(t: TensorView, input_len: int, output_len: int) -> Result<
    (GemvView, usize),
    ComputeError,
> {
    if is_bf16(t) {
        match bf16_whole(t, input_len, output_len) {
            Err(error) => Err(error),
            Ok(rows) => gemv_counted(t, GemvView::Bf16(rows)),
        }
    } else if t.quant_format != 4 {
        Err(ComputeError::UnsupportedQuantFormat(DiskQuantFormat::Int8Symmetric))
    } else {
        match matrix_shape(t) {
            Err(error) => Err(error),
            Ok(shape) => if input_len < shape.cols {
                Err(ComputeError::InvalidShape("tensorwise GEMV input too small"))
            } else if output_len < shape.rows {
                Err(
                    ComputeError::OutputTooSmall {
                        required: shape.rows,
                        actual: output_len as usize,
                    },
                )
            } else {
                match int4_error(
                    shape.rows as int,
                    shape.cols as int,
                    t.scale_bits,
                    t.zero_point_bits,
                ) {
                    Some(error) => Err(error),
                    None => gemv_counted(
                        t,
                        GemvView::Int4(
                            Int4RowsView {
                                data: t.data,
                                rows: shape.rows,
                                cols: shape.cols,
                                scale_bits: t.scale_bits,
                                zero_point_bits: t.zero_point_bits,
                            },
                        ),
                    ),
                }
            },
        }
    }
}

/// A plan with the number of weights of its matrix.
pub open spec fn gemv_counted(t: TensorView, plan: GemvView) -> Result<
    (GemvView, usize),
    ComputeError,
> {
    if t.dims[0] * t.dims[1] > usize::MAX {
        Err(ComputeError::InvalidShape("matrix element count overflow"))
    } else {
        Ok((plan, (t.dims[0] * t.dims[1]) as usize))
    }
}

/// The plan of a product with a matrix of a block, and the number of weights.
pub open spec fn gemv_in(b: BlockView, t: TensorView, input_len: int, output_len: int) -> Result<
    (GemvView, usize),
    ComputeError,
> {
    if t.quant_format == QUANT_DEEPSEEK_FP8_E4M3 {
        match fp8_scale_of(b, t) {
            Err(error) => Err(error),
            Ok(scale) => match fp8_whole(t, scale, input_len, output_len) {
                Err(error) => Err(error),
                Ok(rows) => Ok((GemvView::Fp8(rows), (t.dims[0] * t.dims[1]) as usize)),
            },
        }
    } else {
        gemv_plain(t, input_len, output_len)
    }
}

/// The executable plan matches the model's plan and count.
pub open spec fn gemv_agrees(
    result: Result<(GemvPlan<'_>, usize), ComputeError>,
    model: Result<(GemvView, usize), ComputeError>,
) -> bool {
    match result {
        Ok(plan) => model == Ok::<(GemvView, usize), ComputeError>((plan.0@, plan.1))
            && plan.0@.wf(),
        Err(error) => model == Err::<(GemvView, usize), ComputeError>(error),
    }
}

/// Plans the product of a BF16 matrix, or one of four-bit weights, with an
/// input. Returns the plan and the number of weights.
pub fn plan_gemv_tensorwise<'a>(
    tensor: QuantTensorLayout<'a>,
    input_len: usize,
    output_len: usize,
) -> (result: Result<(GemvPlan<'a>, usize), ComputeError>)
    ensures
        gemv_agrees(result, gemv_plain(tensor@, input_len as int, output_len as int)),
{
    if tensor.quant_format == QUANT_DEEPSEEK_BF16_AUX && tensor.dtype_original == 11 {
        let rows = match plan_bf16_tensorwise(tensor, input_len, output_len) {
            Ok(rows) => rows,
            Err(error) => return Err(error),
        };
        let (rows_count, cols): (usize, usize) = dims2(&tensor);
        return match (MatrixShape { rows: rows_count, cols }).elements() {
            Ok(values) => Ok((GemvPlan::Bf16(rows), values)),
            Err(error) => Err(error),
        };
    }
    if tensor.quant_format != 4 {
        return Err(ComputeError::UnsupportedQuantFormat(DiskQuantFormat::Int8Symmetric));
    }
    let shape: MatrixShape = match tensor_matrix_shape(tensor) {
        Ok(shape) => shape,
        Err(error) => return Err(error),
    };
    if input_len < shape.cols {
        return Err(ComputeError::InvalidShape("tensorwise GEMV input too small"));
    }
    if output_len < shape.rows {
        return Err(ComputeError::OutputTooSmall { required: shape.rows, actual: output_len });
    }
    match check_int4_args(shape.rows, shape.cols, tensor.scale_bits, tensor.zero_point_bits) {
        Some(error) => return Err(error),
        None => {},
    }
    match shape.elements() {
        Ok(values) => Ok(
            (
                GemvPlan::Int4(
                    Int4Rows {
                        data: tensor.data,
                        rows: shape.rows,
                        cols: shape.cols,
                        scale_bits: tensor.scale_bits,
                        zero_point_bits: tensor.zero_point_bits,
                    },
                ),
                values,
            ),
        ),
        Err(error) => Err(error),
    }
}

/// Plans the product of a matrix of a block with an input. Returns the plan
/// and the number of weights.
pub fn plan_gemv<'a>(
    layout: &QuantBlockLayout<'a>,
    tensor: QuantTensorLayout<'a>,
    input_len: usize,
    output_len: usize,
) -> (result: Result<(GemvPlan<'a>, usize), ComputeError>)
    ensures
        gemv_agrees(result, gemv_in(layout@, tensor@, input_len as int, output_len as int)),
{
    if tensor.quant_format == QUANT_DEEPSEEK_FP8_E4M3 {
        let scale = match fp8_scale_for_weight(layout, tensor) {
            Ok(scale) => scale,
            Err(error) => return Err(error),
        };
        let rows = match plan_fp8_tensorwise(tensor, scale, input_len, output_len) {
            Ok(rows) => rows,
            Err(error) => return Err(error),
        };
        let (rows_count, cols): (usize, usize) = dims2(&tensor);
        return Ok((GemvPlan::Fp8(rows), rows_count * cols));
    }
    plan_gemv_tensorwise(tensor, input_len, output_len)
}

/// The scales of an FP8 matrix form a grid over it. Every weight of a block of the
/// grid goes with the one byte of the scale tensor that stands for the block, and the
/// weight itself is the byte at its row and column.
pub proof fn law_weights_go_with_their_scale(
    weight: TensorView,
    scale: TensorView,
    row_start: int,
    row_end: int,
    input_len: int,
    output_len: int,
    row: int,
    col: int,
    block_row: int,
    block_col: int,
)
    requires
        fp8_part(weight, scale, row_start, row_end, input_len, output_len) is Ok,
        0 <= row_start <= row < row_end,
        0 <= col < weight.dims[1],
        0 <= block_row < scale.dims[0],
        0 <= block_col < scale.dims[1],
        block_row * weight.dims[0] <= row * scale.dims[0] < (block_row + 1) * weight.dims[0],
        block_col * weight.dims[1] <= col * scale.dims[1] < (block_col + 1) * weight.dims[1],
    ensures
        ({
            let plan = fp8_part(
                weight,
                scale,
                row_start,
                row_end,
                input_len,
                output_len,
            )->Ok_0;
            &&& plan.row_start == row_start
            &&& plan.row_end == row_end
            &&& plan.cols == weight.dims[1]
            &&& plan.weights(row).len() == weight.dims[1]
            &&& plan.weights(row)[col] == weight.data[row * weight.dims[1] + col]
            &&& plan.scales(row).len() == scale.dims[1]
            &&& plan.col_group * scale.dims[1] == weight.dims[1]
            &&& plan.scales(row)[col / plan.col_group as int] == scale.data[block_row
                * scale.dims[1] + block_col]
        }),
{
    let rows = weight.dims[0] as int;
    let cols = weight.dims[1] as int;
    let scale_rows = scale.dims[0] as int;
    let scale_cols = scale.dims[1] as int;
    let plan = fp8_part(weight, scale, row_start, row_end, input_len, output_len)->Ok_0;
    let row_group = rows / scale_rows;
    let col_group = cols / scale_cols;
    lemma_fp8_rows_wf(weight, scale, row_start, row_end);
    vstd::arithmetic::div_mod::lemma_fundamental_div_mod(rows, scale_rows);
    vstd::arithmetic::div_mod::lemma_fundamental_div_mod(cols, scale_cols);
    assert(row_group <= rows && col_group <= cols) by (nonlinear_arith)
        requires
            rows == scale_rows * row_group,
            cols == scale_cols * col_group,
            scale_rows >= 1,
            scale_cols >= 1,
            row_group >= 0,
            col_group >= 0,
    ;
    assert(block_row * row_group <= row < (block_row + 1) * row_group) by (nonlinear_arith)
        requires
            rows == scale_rows * row_group,
            scale_rows >= 1,
            block_row * rows <= row * scale_rows < (block_row + 1) * rows,
    ;
    assert(block_col * col_group <= col < (block_col + 1) * col_group) by (nonlinear_arith)
        requires
            cols == scale_cols * col_group,
            scale_cols >= 1,
            block_col * cols <= col * scale_cols < (block_col + 1) * cols,
    ;
    assert((block_row + 1) * row_group == block_row * row_group + row_group) by (nonlinear_arith);
    assert((block_col + 1) * col_group == block_col * col_group + col_group) by (nonlinear_arith);
    vstd::arithmetic::div_mod::lemma_fundamental_div_mod_converse(
        row,
        row_group,
        block_row,
        row - block_row * row_group,
    );
    vstd::arithmetic::div_mod::lemma_fundamental_div_mod_converse(
        col,
        col_group,
        block_col,
        col - block_col * col_group,
    );
    assert((row / plan.row_group as int + 1) * plan.scale_cols <= scale.data.len());
    assert((block_row + 1) * scale_cols == block_row * scale_cols + scale_cols)
        by (nonlinear_arith);
    assert(0 <= block_row * scale_cols) by (nonlinear_arith)
        requires
            0 <= block_row,
            0 <= scale_cols,
    ;
    assert(0 <= row * cols && row * cols + cols <= row_end * cols) by (nonlinear_arith)
        requires
            0 <= row,
            row + 1 <= row_end,
            cols >= 0,
    ;
    assert(scale_cols * col_group == col_group * scale_cols) by (nonlinear_arith);
}

/// Rows of an FP8 matrix are multiplied exactly where the rows and the scales are
/// there in full, the scales divide the matrix evenly, and both vectors have room.
pub proof fn law_fp8_rows_fit(
    weight: TensorView,
    scale: TensorView,
    row_start: int,
    row_end: int,
    input_len: int,
    output_len: int,
)
    ensures
        fp8_part(weight, scale, row_start, row_end, input_len, output_len) is Ok <==> {
            &&& scale.quant_format == QUANT_DEEPSEEK_UE8M0_SCALE
            &&& weight.dims.len() == 2 && scale.dims.len() == 2
            &&& row_start < row_end <= weight.dims[0]
            &&& weight.dims[1] > 0 && scale.dims[0] > 0 && scale.dims[1] > 0 && weight.dims[0] > 0
            &&& weight.dims[0] % scale.dims[0] == 0
            &&& weight.dims[1] % scale.dims[1] == 0
            &&& weight.dims[1] <= input_len
            &&& row_end - row_start <= output_len
            &&& weight.dims[1] * row_end <= weight.data.len()
            &&& weight.dims[1] * row_end <= usize::MAX
            &&& scale.dims[0] * scale.dims[1] <= scale.data.len()
            &&& scale.dims[0] * scale.dims[1] <= usize::MAX
        },
{
    let rows = row_end - row_start;
    let cols = weight.dims[1] as int;
    if input_len >= cols {
        lemma_all_long(seq![input_len], cols, 0);
    } else {
        assert(first_short(seq![input_len], cols, 0) == Some(0int));
    }
    if output_len >= rows {
        lemma_all_long(seq![output_len], rows, 0);
    } else {
        assert(first_short(seq![output_len], rows, 0) == Some(0int));
    }
}

/// Every value of a BF16 matrix is the pair of bytes at its row and column, whether
/// all rows are multiplied or some, and exactly where the bytes are there and both
/// vectors have room.
pub proof fn law_bf16_rows_are_read_in_place(
    t: TensorView,
    row_start: int,
    row_end: int,
    input_len: int,
    output_len: int,
    row: int,
    col: int,
)
    requires
        0 <= row_start <= row < row_end,
        t.dims.len() == 2,
        0 <= col < t.dims[1],
    ensures
        bf16_part(t, row_start, row_end, input_len, output_len) is Ok <==> {
            &&& row_end <= t.dims[0]
            &&& t.dims[1] <= input_len
            &&& row_end - row_start <= output_len
            &&& 2 * t.dims[1] <= usize::MAX
            &&& row_end * (2 * t.dims[1]) <= usize::MAX
            &&& row_end * (2 * t.dims[1]) <= t.data.len()
        },
        row_start == 0 && row_end == t.dims[0] ==> bf16_whole(t, input_len, output_len)
            == bf16_part(t, row_start, row_end, input_len, output_len),
        bf16_part(t, row_start, row_end, input_len, output_len) matches Ok(plan) ==> {
            &&& plan.row_start == row_start && plan.row_end == row_end
            &&& plan.cols == t.dims[1]
            &&& plan.bytes(row).len() == 2 * t.dims[1]
            &&& plan.bytes(row)[2 * col] == t.data[2 * (row * t.dims[1] + col)]
            &&& plan.bytes(row)[2 * col + 1] == t.data[2 * (row * t.dims[1] + col) + 1]
        },
{
    let width = 2 * t.dims[1];
    assert(row * width == 2 * (row * t.dims[1])) by (nonlinear_arith)
        requires
            width == 2 * t.dims[1],
    ;
    assert(0 <= row * width && row * width + width <= row_end * width) by (nonlinear_arith)
        requires
            0 <= row,
            row + 1 <= row_end,
            0 <= width,
    ;
}

/// A row of packed weights starts on a byte of its own, and every byte of it is made
/// of two neighbouring weights, the first in its low half.
pub proof fn law_packed_rows_start_on_bytes(plan: Int4RowsView, row: int, byte: int)
    requires
        0 <= row,
        0 <= byte < (plan.cols + 1) / 2,
        (row + 1) * ((plan.cols + 1) / 2) <= plan.data.len(),
    ensures
        plan.holds_row(row),
        plan.nibble(row, 2 * byte) < 16,
        plan.nibble(row, 2 * byte + 1) < 16,
        plan.data[row * ((plan.cols + 1) / 2) + byte] == plan.nibble(row, 2 * byte) + 16
            * plan.nibble(row, 2 * byte + 1),
{
    let width = (plan.cols + 1) / 2;
    assert(0 <= row * width && (row + 1) * width == row * width + width) by (nonlinear_arith)
        requires
            0 <= row,
            0 <= width,
    ;
}

/// Which product a tensor gets: FP8 weights with the scales that carry their name,
/// BF16 values, or packed weights with the tensor's own scale and zero point; each
/// over all rows, and counted by the weights gone through.
pub proof fn law_products_go_by_format(b: BlockView, t: TensorView, input_len: int, output_len: int)
    requires
        gemv_in(b, t, input_len, output_len) is Ok,
    ensures
        ({
            let (plan, count) = gemv_in(b, t, input_len, output_len)->Ok_0;
            &&& t.dims.len() == 2
            &&& count == t.dims[0] * t.dims[1]
            &&& t.dims[1] <= input_len && t.dims[0] <= output_len
            &&& match plan {
                GemvView::Fp8(rows) => {
                    &&& t.quant_format == QUANT_DEEPSEEK_FP8_E4M3
                    &&& fp8_scale_of(b, t) is Ok
                    &&& fp8_part(
                        t,
                        fp8_scale_of(b, t)->Ok_0,
                        0,
                        t.dims[0] as int,
                        input_len,
                        output_len,
                    ) == Ok::<Fp8RowsView, ComputeError>(rows)
                },
                GemvView::Bf16(rows) => {
                    &&& t.quant_format == QUANT_DEEPSEEK_BF16_AUX && t.dtype_original == 11
                    &&& rows.data == t.data && rows.cols == t.dims[1]
                    &&& rows.row_start == 0 && rows.row_end == t.dims[0]
                },
                GemvView::Int4(rows) => {
                    &&& t.quant_format == 4
                    &&& rows.data == t.data && rows.rows == t.dims[0] && rows.cols == t.dims[1]
                    &&& rows.scale_bits == t.scale_bits
                    &&& rows.zero_point_bits == t.zero_point_bits
                },
            }
        }),
{
    if t.quant_format == QUANT_DEEPSEEK_FP8_E4M3 {
        lemma_part_is_whole(t, fp8_scale_of(b, t)->Ok_0, input_len, output_len);
    }
    assert(0 <= t.dims[0] * t.dims[1]) by (nonlinear_arith);
}

/// What `Fp8Rows::row` returns: the weights of the row, and the scales of the block
/// of rows that the row belongs to.
pub proof fn law_fp8_row(rows: &Fp8Rows<'_>, row: usize, parts: (&[u8], &[u8]), i: int, block: int)
    requires
        rows@.wf(),
        rows.row_start <= row < rows.row_end,
        block * rows.row_group <= row < (block + 1) * rows.row_group,
        call_ensures(Fp8Rows::row, (rows, row), parts),
    ensures
        parts.0@.len() == rows.cols,
        parts.1@.len() == rows.scale_cols,
        0 <= i < rows.cols ==> parts.0@[i] == rows.weight@[row * rows.cols + i],
        0 <= i < rows.scale_cols ==> parts.1@[i] == rows.scale@[block * rows.scale_cols + i],
{
    let group = rows.row_group as int;
    assert(block * group == group * block && (block + 1) * group == group * block + group)
        by (nonlinear_arith);
    vstd::arithmetic::div_mod::lemma_fundamental_div_mod_converse(
        row as int,
        group,
        block,
        row - group * block,
    );
    assert((row as int / group + 1) * rows.scale_cols <= rows.scale@.len());
    assert((block + 1) * rows.scale_cols == block * rows.scale_cols + rows.scale_cols)
        by (nonlinear_arith);
    assert(block >= 0) by (nonlinear_arith)
        requires
            row < (block + 1) * group,
            row >= 0,
            group > 0,
    ;
    assert(block * rows.scale_cols >= 0) by (nonlinear_arith)
        requires
            block >= 0,
    ;
    assert(0 <= row * rows.cols && row * rows.cols + rows.cols <= rows.row_end * rows.cols)
        by (nonlinear_arith)
        requires
            row + 1 <= rows.row_end,
            rows.cols > 0,
    ;
}

/// What `Bf16Rows::row` returns: the bytes of the row, two for each value.
pub proof fn law_bf16_row(rows: &Bf16Rows<'_>, row: usize, bytes: &[u8], i: int)
    requires
        rows@.wf(),
        rows.row_start <= row < rows.row_end,
        0 <= i < 2 * rows.cols,
        call_ensures(Bf16Rows::row, (rows, row), bytes),
    ensures
        bytes@.len() == 2 * rows.cols,
        bytes@[i] == rows.data@[row * (2 * rows.cols) + i],
{
    let width = 2 * rows.cols as int;
    assert(0 <= row * width && row * width + width <= rows.row_end * width) by (nonlinear_arith)
        requires
            row + 1 <= rows.row_end,
            width >= 0,
    ;
}

} // verus!
