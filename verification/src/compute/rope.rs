//! Rotary embeddings: which spans are rotated, and when a rotation is refused.

use crate::compute::error::ComputeError;
use crate::floats::{bits_are_nan, bits_greater};
use vstd::prelude::*;

verus! {

use crate::floats::{greater, is_nan};

/// Why the first `rope_dim` of `values_len` values cannot be rotated, if they
/// cannot. A dimension of zero rotates nothing.
pub open spec fn rope_error(values_len: int, rope_dim: int, theta_bits: u32) -> Option<
    ComputeError,
> {
    if rope_dim == 0 {
        None
    } else if rope_dim % 2 != 0 {
        Some(ComputeError::InvalidShape("RoPE dim must be even"))
    } else if values_len < rope_dim {
        Some(ComputeError::InvalidShape("RoPE input shorter than dim"))
    } else if !is_nan(theta_bits) && !greater(theta_bits, 0) {
        Some(ComputeError::InvalidShape("RoPE theta must be positive"))
    } else {
        None
    }
}

/// Why the first `rope_dim` of `values_len` values cannot be rotated.
pub fn check_rope(values_len: usize, rope_dim: usize, theta_bits: u32) -> (error: Option<
    ComputeError,
>)
    ensures
        error == rope_error(values_len as int, rope_dim as int, theta_bits),
{
    if rope_dim == 0 {
        return None;
    }
    if rope_dim % 2 != 0 {
        return Some(ComputeError::InvalidShape("RoPE dim must be even"));
    }
    if values_len < rope_dim {
        return Some(ComputeError::InvalidShape("RoPE input shorter than dim"));
    }
    if !bits_are_nan(theta_bits) && !bits_greater(theta_bits, 0) {
        return Some(ComputeError::InvalidShape("RoPE theta must be positive"));
    }
    None
}

/// Why `values_len` values cannot be rotated by `freqs_len` frequencies, one
/// for each pair.
pub open spec fn freqs_error(values_len: int, freqs_len: int) -> Option<ComputeError> {
    if freqs_len > 0 && values_len < 2 * freqs_len {
        Some(ComputeError::InvalidShape("RoPE input shorter than dim"))
    } else {
        None
    }
}

/// Why `values_len` values cannot be rotated by `freqs_len` frequencies.
pub fn check_rope_freqs(values_len: usize, freqs_len: usize) -> (error: Option<ComputeError>)
    ensures
        error == freqs_error(values_len as int, freqs_len as int),
{
    if freqs_len > 0 && values_len / 2 < freqs_len {
        return Some(ComputeError::InvalidShape("RoPE input shorter than dim"));
    }
    None
}

/// Why the heads cannot be rotated: `rope_dim` values of each, from
/// `rope_offset` on.
pub open spec fn rope_heads_error(
    values_len: int,
    num_heads: int,
    head_dim: int,
    rope_offset: int,
    rope_dim: int,
    theta_bits: u32,
) -> Option<ComputeError> {
    if num_heads == 0 || head_dim == 0 {
        Some(ComputeError::InvalidShape("RoPE heads/head_dim must be non-zero"))
    } else if num_heads * head_dim > usize::MAX {
        Some(ComputeError::InvalidShape("RoPE head span overflow"))
    } else if values_len < num_heads * head_dim {
        Some(ComputeError::InvalidShape("RoPE head input too small"))
    } else if rope_offset + rope_dim > usize::MAX {
        Some(ComputeError::InvalidShape("RoPE offset overflow"))
    } else if rope_offset + rope_dim > head_dim {
        Some(ComputeError::InvalidShape("RoPE dim larger than head_dim"))
    } else {
        rope_error(rope_dim, rope_dim, theta_bits)
    }
}

/// Why the heads cannot be rotated.
pub fn check_rope_heads(
    values_len: usize,
    num_heads: usize,
    head_dim: usize,
    rope_offset: usize,
    rope_dim: usize,
    theta_bits: u32,
) -> (error: Option<ComputeError>)
    ensures
        error == rope_heads_error(
            values_len as int,
            num_heads as int,
            head_dim as int,
            rope_offset as int,
            rope_dim as int,
            theta_bits,
        ),
{
    if num_heads == 0 || head_dim == 0 {
        return Some(ComputeError::InvalidShape("RoPE heads/head_dim must be non-zero"));
    }
    let required: usize = match num_heads.checked_mul(head_dim) {
        Some(required) => required,
        None => return Some(ComputeError::InvalidShape("RoPE head span overflow")),
    };
    if values_len < required {
        return Some(ComputeError::InvalidShape("RoPE head input too small"));
    }
    match rope_offset.checked_add(rope_dim) {
        Some(end) => if end > head_dim {
            return Some(ComputeError::InvalidShape("RoPE dim larger than head_dim"));
        },
        None => return Some(ComputeError::InvalidShape("RoPE offset overflow")),
    }
    check_rope(rope_dim, rope_dim, theta_bits)
}

/// The span of head `head` that is rotated.
pub fn rope_head_span(
    values_len: usize,
    num_heads: usize,
    head_dim: usize,
    rope_offset: usize,
    rope_dim: usize,
    head: usize,
) -> (span: (usize, usize))
    requires
        head < num_heads,
        num_heads * head_dim <= values_len,
        rope_offset + rope_dim <= head_dim,
    ensures
        span.0 == head * head_dim + rope_offset,
        span.1 == span.0 + rope_dim,
        span.1 <= values_len,
        span.1 <= (head + 1) * head_dim,
{
    proof {
        assert(head * head_dim + head_dim <= num_heads * head_dim && head * head_dim + head_dim == (
        head + 1) * head_dim) by (nonlinear_arith)
            requires
                head < num_heads,
        ;
        assert(0 <= head * head_dim) by (nonlinear_arith);
    }
    let start: usize = head * head_dim + rope_offset;
    (start, start + rope_dim)
}

/// Each head rotates as many values as the others, at the same place within the
/// head, and none of another head.
pub proof fn law_heads_rotate_their_own(
    values_len: usize,
    num_heads: usize,
    head_dim: usize,
    rope_offset: usize,
    rope_dim: usize,
    head: usize,
    span: (usize, usize),
    next: (usize, usize),
)
    requires
        head + 1 < num_heads,
        num_heads * head_dim <= values_len,
        rope_offset + rope_dim <= head_dim,
        call_ensures(
            rope_head_span,
            (values_len, num_heads, head_dim, rope_offset, rope_dim, head),
            span,
        ),
        call_ensures(
            rope_head_span,
            (values_len, num_heads, head_dim, rope_offset, rope_dim, (head + 1) as usize),
            next,
        ),
    ensures
        span.1 - span.0 == rope_dim,
        next.1 - next.0 == rope_dim,
        next.0 - span.0 == head_dim,
        span.1 <= next.0,
        next.1 <= values_len,
        head == 0 ==> span.0 == rope_offset,
{
    assert((head + 1) * head_dim == head * head_dim + head_dim) by (nonlinear_arith);
    assert(head == 0 ==> head * head_dim == 0) by (nonlinear_arith);
}

} // verus!
