//! Hyper-connections: what mixing the copies of the hidden state reads, and
//! when a step is refused.

use crate::compute::error::ComputeError;
use crate::compute::values::HcParams;
use vstd::prelude::*;

verus! {

use crate::compute::quant_block::BlockView;
use crate::compute::values::{hc_in, HcView};

impl HcView {
    /// The projection has one row of single-precision numbers for each mix.
    pub open spec fn wf(self) -> bool {
        self.fn_data.len() == self.mix_hc * self.hc_dim * 4 && self.base.len() == self.mix_hc
    }

    /// Row `mix` of the projection.
    pub open spec fn row(self, mix: int) -> Seq<u8> {
        self.fn_data.subrange(mix * self.hc_dim * 4, (mix + 1) * self.hc_dim * 4)
    }
}

proof fn lemma_row_fits(mix: int, rows: int, width: int)
    requires
        0 <= mix < rows,
        0 <= width,
    ensures
        0 <= mix * width * 4,
        (mix + 1) * width * 4 == mix * width * 4 + width * 4,
        (mix + 1) * width * 4 <= rows * width * 4,
{
    assert((mix + 1) * width == mix * width + width) by (nonlinear_arith);
    assert(0 <= mix * width) by (nonlinear_arith)
        requires
            0 <= mix,
            0 <= width,
    ;
    assert((mix + 1) * width <= rows * width) by (nonlinear_arith)
        requires
            mix + 1 <= rows,
            0 <= width,
    ;
}

impl<'a> HcParams<'a> {
    /// Row `mix` of the projection.
    pub fn row(&self, mix: usize) -> (row: &'a [u8])
        requires
            self@.wf(),
            mix < self@.mix_hc,
        ensures
            row@ == self@.row(mix as int),
            row@.len() == self@.hc_dim * 4,
    {
        row_of(self.fn_data, self.mix_hc, self.hc_dim, mix)
    }
}

/// Row `row` of `rows` rows of `width` single-precision numbers.
pub fn row_of(data: &[u8], rows: usize, width: usize, row: usize) -> (part: &[u8])
    requires
        row < rows,
        data@.len() >= rows * width * 4,
        data.len() <= usize::MAX,
    ensures
        part@ == data@.subrange(row * width * 4, (row + 1) * width * 4),
        part@.len() == width * 4,
{
    proof {
        lemma_row_fits(row as int, rows as int, width as int);
        assert(0 <= row * width) by (nonlinear_arith);
    }
    let start: usize = row * width * 4;
    &data[start..start + width * 4]
}

/// Number of mixes of `hc` copies: one into the working stream, one out of it
/// and one between the copies for each pair.
pub open spec fn mixes_of(hc: int) -> int {
    (2 + hc) * hc
}

/// Why the mixes cannot be split, if they cannot.
pub open spec fn split_error(mixes_len: int, scale_len: int, base_len: int, hc: int) -> Option<
    ComputeError,
> {
    if mixes_len < mixes_of(hc) || base_len < mixes_of(hc) || scale_len < 3 {
        Some(ComputeError::InvalidShape("hc sinkhorn input sizes"))
    } else {
        None
    }
}

/// Why the mixes cannot be split.
pub fn check_hc_split(mixes_len: usize, scale_len: usize, base_len: usize, hc: usize) -> (error:
    Option<ComputeError>)
    ensures
        error == split_error(mixes_len as int, scale_len as int, base_len as int, hc as int),
{
    let mixes: usize = match hc.checked_add(2) {
        Some(rows) => match rows.checked_mul(hc) {
            Some(mixes) => mixes,
            None => return Some(ComputeError::InvalidShape("hc sinkhorn input sizes")),
        },
        None => {
            proof {
                assert((2 + hc) * hc > usize::MAX) by (nonlinear_arith)
                    requires
                        2 + hc > usize::MAX,
                        hc >= 1,
                ;
            }
            return Some(ComputeError::InvalidShape("hc sinkhorn input sizes"));
        },
    };
    if mixes_len < mixes || base_len < mixes || scale_len < 3 {
        return Some(ComputeError::InvalidShape("hc sinkhorn input sizes"));
    }
    None
}

/// Where the mixes of one copy stand: into the working stream, out of it, and
/// the first of the mixes between it and the other copies.
pub fn hc_mix_offsets(hc: usize, copy: usize) -> (offsets: (usize, usize, usize))
    requires
        copy < hc,
        mixes_of(hc as int) <= usize::MAX,
    ensures
        offsets.0 == copy,
        offsets.1 == hc + copy,
        offsets.2 == 2 * hc + copy * hc,
        offsets.2 + hc <= mixes_of(hc as int),
{
    proof {
        assert(2 * hc + copy * hc + hc <= (2 + hc) * hc && 0 <= copy * hc) by (nonlinear_arith)
            requires
                copy < hc,
        ;
    }
    (copy, hc + copy, 2 * hc + copy * hc)
}

/// Why the copies cannot be reduced to a working stream, if they cannot.
pub open spec fn pre_error(params: HcView, x_len: int, y_len: int, hc: int, hidden: int) -> Option<
    ComputeError,
> {
    if x_len < hc * hidden || y_len < hidden || params.hc_dim != hc * hidden {
        Some(ComputeError::InvalidShape("hc_pre sizes"))
    } else {
        split_error(params.mix_hc as int, params.scale.len() as int, params.base.len() as int, hc)
    }
}

/// Why the copies cannot be reduced to a working stream.
pub fn check_hc_pre(
    params: &HcParams<'_>,
    x_len: usize,
    y_len: usize,
    hc: usize,
    hidden: usize,
) -> (error: Option<ComputeError>)
    ensures
        error == pre_error(params@, x_len as int, y_len as int, hc as int, hidden as int),
{
    let hc_dim: usize = match hc.checked_mul(hidden) {
        Some(dim) => dim,
        None => return Some(ComputeError::InvalidShape("hc_pre sizes")),
    };
    if x_len < hc_dim || y_len < hidden || params.hc_dim != hc_dim {
        return Some(ComputeError::InvalidShape("hc_pre sizes"));
    }
    check_hc_split(params.mix_hc, params.scale.len(), params.base.len(), hc)
}

/// Why the output cannot be spread over the copies, if it cannot.
pub open spec fn post_error(
    y_len: int,
    residual_len: int,
    post_len: int,
    comb_len: int,
    out_len: int,
    hc: int,
    hidden: int,
) -> Option<ComputeError> {
    if y_len < hidden || residual_len < hc * hidden || out_len < hc * hidden || post_len < hc
        || comb_len < hc * hc {
        Some(ComputeError::InvalidShape("hc_post sizes"))
    } else {
        None
    }
}

/// Why the output cannot be spread over the copies.
pub fn check_hc_post(
    y_len: usize,
    residual_len: usize,
    post_len: usize,
    comb_len: usize,
    out_len: usize,
    hc: usize,
    hidden: usize,
) -> (error: Option<ComputeError>)
    ensures
        error == post_error(
            y_len as int,
            residual_len as int,
            post_len as int,
            comb_len as int,
            out_len as int,
            hc as int,
            hidden as int,
        ),
{
    let hc_dim: usize = match hc.checked_mul(hidden) {
        Some(dim) => dim,
        None => return Some(ComputeError::InvalidShape("hc_post sizes")),
    };
    let square: usize = match hc.checked_mul(hc) {
        Some(square) => square,
        None => return Some(ComputeError::InvalidShape("hc_post sizes")),
    };
    if y_len < hidden || residual_len < hc_dim || out_len < hc_dim || post_len < hc || comb_len
        < square {
        return Some(ComputeError::InvalidShape("hc_post sizes"));
    }
    None
}

/// Why the copies cannot be pooled, if they cannot.
pub open spec fn head_error(
    fn_len: int,
    base_len: int,
    x_len: int,
    pooled_len: int,
    hc: int,
    hidden: int,
) -> Option<ComputeError> {
    if x_len < hc * hidden || pooled_len < hidden || base_len < hc {
        Some(ComputeError::InvalidShape("hc_head sizes"))
    } else if fn_len < hc * (hc * hidden) * 4 {
        Some(ComputeError::InvalidShape("hc_head fn data too small"))
    } else {
        None
    }
}

/// Why the copies cannot be pooled.
pub fn check_hc_head(
    fn_len: usize,
    base_len: usize,
    x_len: usize,
    pooled_len: usize,
    hc: usize,
    hidden: usize,
) -> (error: Option<ComputeError>)
    ensures
        error == head_error(
            fn_len as int,
            base_len as int,
            x_len as int,
            pooled_len as int,
            hc as int,
            hidden as int,
        ),
{
    let hc_dim: usize = match hc.checked_mul(hidden) {
        Some(dim) => dim,
        None => return Some(ComputeError::InvalidShape("hc_head sizes")),
    };
    if x_len < hc_dim || pooled_len < hidden || base_len < hc {
        return Some(ComputeError::InvalidShape("hc_head sizes"));
    }
    let values: usize = match hc.checked_mul(hc_dim) {
        Some(values) => values,
        None => return Some(ComputeError::InvalidShape("hc_head fn data too small")),
    };
    if fn_len / 4 < values {
        return Some(ComputeError::InvalidShape("hc_head fn data too small"));
    }
    None
}

/// Parameters that a block holds are complete: each mix has its row and its
/// base.
pub proof fn law_hc_params_are_complete(b: BlockView, prefix: Seq<u8>)
    ensures
        hc_in(b, prefix) matches Ok(Some(params)) ==> params.wf(),
{
}

/// The rows of the mixing matrix lie one behind the other, each of four bytes to
/// a value: value `i` of a row is the value at its place in the whole.
pub proof fn law_mix_rows_lie_in_order(params: HcView, mix: int, i: int)
    requires
        params.wf(),
        0 <= mix < params.mix_hc,
        0 <= i < 4 * params.hc_dim,
    ensures
        params.row(mix).len() == 4 * params.hc_dim,
        params.row(mix)[i] == params.fn_data[4 * (mix * params.hc_dim) + i],
        4 * (mix * params.hc_dim) + i < params.fn_data.len(),
{
    let width = params.hc_dim as int;
    let rows = params.mix_hc as int;
    assert(mix * width * 4 == 4 * (mix * width)) by (nonlinear_arith);
    assert((mix + 1) * width * 4 == 4 * (mix * width) + 4 * width) by (nonlinear_arith);
    assert((mix + 1) * width * 4 <= rows * width * 4) by (nonlinear_arith)
        requires
            mix + 1 <= rows,
            width >= 0,
    ;
    assert(0 <= mix * width) by (nonlinear_arith)
        requires
            0 <= mix,
            0 <= width,
    ;
}

/// The mixes of `hc` copies are one number to weigh each copy, one to write each
/// back, and one for each pair of copies.
pub proof fn law_mixes_are_complete(hc: int)
    ensures
        mixes_of(hc) == hc + hc + hc * hc,
{
    assert((2 + hc) * hc == hc + hc + hc * hc) by (nonlinear_arith);
}

/// The mixes of a copy: one to weigh it, one to write it back, and a run of one for
/// each copy. No two copies share one, and all of them fit.
pub proof fn law_mixes_do_not_meet(
    hc: usize,
    copy: usize,
    other: usize,
    offsets: (usize, usize, usize),
    others: (usize, usize, usize),
)
    requires
        copy < other < hc,
        mixes_of(hc as int) <= usize::MAX,
        call_ensures(hc_mix_offsets, (hc, copy), offsets),
        call_ensures(hc_mix_offsets, (hc, other), others),
    ensures
        offsets.0 < others.0 < hc,
        hc <= offsets.1 < others.1 < 2 * hc,
        2 * hc <= offsets.2,
        offsets.2 + hc <= others.2,
        others.2 + hc <= hc + hc + hc * hc,
        copy == 0 ==> offsets == (0usize, hc, (2 * hc) as usize),
        other == copy + 1 ==> others.2 == offsets.2 + hc,
{
    law_mixes_are_complete(hc as int);
    assert(copy * hc + hc <= other * hc) by (nonlinear_arith)
        requires
            copy + 1 <= other,
            hc >= 0,
    ;
    assert(0 <= copy * hc) by (nonlinear_arith);
    assert(other == copy + 1 ==> other * hc == copy * hc + hc) by (nonlinear_arith);
    assert(copy == 0 ==> copy * hc == 0) by (nonlinear_arith);
}

} // verus!
