//! Products with INT4 weights that have a scale and a zero point for every group
//! of a row.

use crate::compute::config::{grouped_count, packed_i4_row_bytes};
use crate::compute::error::ComputeError;
use crate::compute::gemv::i4_nibble_at;
use vstd::prelude::*;

verus! {

use crate::deepseek_v4::nibble_at;

/// Which parts of a product there are.
#[derive(Clone, Copy, Debug, PartialEq, Eq, Structural)]
pub struct GemvParts {
    pub input: bool,
    pub packed_weights: bool,
    pub scales: bool,
    pub zero_points: bool,
    pub output: bool,
}

/// What is wrong with a product of `n` rows and `k` columns.
pub open spec fn fused_gemv_error(n: usize, k: usize, group_size: usize, parts: GemvParts) -> Option<
    ComputeError,
> {
    if n == 0 || k == 0 {
        Some(ComputeError::InvalidShape("gemv dimensions must be non-zero"))
    } else if group_size == 0 {
        Some(ComputeError::EmptyGroupSize)
    } else if !parts.input {
        Some(ComputeError::InvalidPointer("gemv.input"))
    } else if !parts.packed_weights {
        Some(ComputeError::InvalidPointer("gemv.packed_weights"))
    } else if !parts.scales {
        Some(ComputeError::InvalidPointer("gemv.scales"))
    } else if !parts.zero_points {
        Some(ComputeError::InvalidPointer("gemv.zero_points"))
    } else if !parts.output {
        Some(ComputeError::InvalidPointer("gemv.output"))
    } else {
        None
    }
}

/// Checks a product of `n` rows and `k` columns.
pub fn validate_fused_gemv_args(n: usize, k: usize, group_size: usize, parts: GemvParts) -> (result:
    Result<(), ComputeError>)
    ensures
        result == match fused_gemv_error(n, k, group_size, parts) {
            Some(error) => Err(error),
            None => Ok(()),
        },
{
    if n == 0 || k == 0 {
        return Err(ComputeError::InvalidShape("gemv dimensions must be non-zero"));
    }
    if group_size == 0 {
        return Err(ComputeError::EmptyGroupSize);
    }
    if !parts.input {
        return Err(ComputeError::InvalidPointer("gemv.input"));
    }
    if !parts.packed_weights {
        return Err(ComputeError::InvalidPointer("gemv.packed_weights"));
    }
    if !parts.scales {
        return Err(ComputeError::InvalidPointer("gemv.scales"));
    }
    if !parts.zero_points {
        return Err(ComputeError::InvalidPointer("gemv.zero_points"));
    }
    if !parts.output {
        return Err(ComputeError::InvalidPointer("gemv.output"));
    }
    Ok(())
}

/// Checks a product of an `m` by `k` matrix with a `k` by `n` matrix.
pub fn check_sgemm(m: usize, n: usize, k: usize, a: bool, b: bool, c: bool) -> (result: Result<
    (),
    ComputeError,
>)
    ensures
        result == if !a {
            Err::<(), ComputeError>(ComputeError::InvalidPointer("sgemm.a"))
        } else if !b {
            Err(ComputeError::InvalidPointer("sgemm.b"))
        } else if !c {
            Err(ComputeError::InvalidPointer("sgemm.c"))
        } else if m == 0 || n == 0 || k == 0 {
            Err(ComputeError::InvalidShape("sgemm dimensions must be non-zero"))
        } else {
            Ok(())
        },
{
    if !a {
        return Err(ComputeError::InvalidPointer("sgemm.a"));
    }
    if !b {
        return Err(ComputeError::InvalidPointer("sgemm.b"));
    }
    if !c {
        return Err(ComputeError::InvalidPointer("sgemm.c"));
    }
    if m == 0 || n == 0 || k == 0 {
        return Err(ComputeError::InvalidShape("sgemm dimensions must be non-zero"));
    }
    Ok(())
}

/// Where a weight stands: its four bits, and the group that has its scale and
/// zero point.
#[derive(Clone, Copy, Debug, PartialEq, Eq, Structural)]
pub struct GroupedWeight {
    pub nibble: u8,
    pub group: usize,
}

/// The weight in column `inner` of row `row`, in rows of `k` weights.
pub fn decode_i4_affine_at(
    packed: &[u8],
    k: usize,
    group_size: usize,
    row: usize,
    inner: usize,
) -> (weight: GroupedWeight)
    requires
        group_size > 0,
        inner < k,
        k < usize::MAX,
        k + group_size <= usize::MAX,
        (row + 1) * ((k + 1) / 2) <= packed@.len(),
        (row + 1) * ((k + group_size - 1) / (group_size as int)) <= usize::MAX,
    ensures
        weight.nibble == nibble_at(
            packed@.subrange(row * ((k + 1) / 2), (row + 1) * ((k + 1) / 2)),
            inner as int,
        ),
        weight.group == row * ((k + group_size - 1) / (group_size as int)) + inner / group_size,
{
    let len: usize = packed.len();
    let row_bytes: usize = packed_i4_row_bytes(k);
    let groups: usize = grouped_count(k, group_size);
    proof {
        assert((row + 1) * row_bytes <= len);
        assert((row + 1) * row_bytes == row * row_bytes + row_bytes) by (nonlinear_arith);
        assert((row + 1) * groups == row * groups + groups) by (nonlinear_arith);
        assert(inner / group_size < groups) by (nonlinear_arith)
            requires
                inner < k,
                group_size > 0,
                groups == (k + group_size - 1) / (group_size as int),
        ;
    }
    let start: usize = row * row_bytes;
    let bytes: &[u8] = vstd::slice::slice_subrange(packed, start, start + row_bytes);
    GroupedWeight {
        nibble: i4_nibble_at(bytes, inner),
        group: row * groups + inner / group_size,
    }
}

/// A weight of a packed matrix: the half of the byte at its row and column, and the
/// group of its row that its column falls into; rows share no byte and no group.
pub proof fn law_packed_weights_are_read_in_place(
    packed: &[u8],
    k: usize,
    group_size: usize,
    row: usize,
    inner: usize,
    weight: GroupedWeight,
)
    requires
        group_size > 0,
        inner < k,
        k < usize::MAX,
        k + group_size <= usize::MAX,
        (row + 1) * ((k + 1) / 2) <= packed@.len(),
        call_ensures(decode_i4_affine_at, (packed, k, group_size, row, inner), weight),
    ensures
        ({
            let groups = (k + group_size - 1) / (group_size as int);
            let byte = packed@[row * ((k + 1) / 2) + inner as int / 2];
            &&& weight.nibble == if inner % 2 == 0 {
                byte % 16
            } else {
                byte / 16
            }
            &&& row * groups <= weight.group < (row + 1) * groups
            &&& (weight.group - row * groups) * group_size <= inner
            &&& inner < (weight.group - row * groups + 1) * group_size
        }),
{
    let width = (k + 1) / 2;
    let groups = (k + group_size - 1) / (group_size as int);
    let size = group_size as int;
    assert((row + 1) * width == row * width + width) by (nonlinear_arith);
    assert(0 <= row * width) by (nonlinear_arith)
        requires
            width >= 0,
    ;
    let g = inner as int / size;
    vstd::arithmetic::div_mod::lemma_fundamental_div_mod(inner as int, size);
    vstd::arithmetic::div_mod::lemma_mod_bound(inner as int, size);
    vstd::arithmetic::div_mod::lemma_fundamental_div_mod(k + size - 1, size);
    vstd::arithmetic::div_mod::lemma_mod_bound(k + size - 1, size);
    assert(size * g == g * size && (g + 1) * size == g * size + size) by (nonlinear_arith);
    assert(size * groups == groups * size) by (nonlinear_arith);
    assert(g < groups) by (nonlinear_arith)
        requires
            g * size <= inner,
            groups * size >= k,
            inner < k,
            size > 0,
    ;
    assert(g >= 0) by (nonlinear_arith)
        requires
            (g + 1) * size > inner,
            inner >= 0,
            size > 0,
    ;
    assert((row + 1) * groups == row * groups + groups) by (nonlinear_arith);
}

} // verus!
