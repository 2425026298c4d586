//! Counts of weights, which may be too large for a word.

use vstd::prelude::*;

verus! {

/// A number as a count, where it fits.
pub open spec fn as_count(n: int) -> Option<usize> {
    if 0 <= n <= usize::MAX {
        Some(n as usize)
    } else {
        None
    }
}

/// The sum of two counts, where there is one.
pub fn add_counts(a: Option<usize>, b: Option<usize>) -> (sum: Option<usize>)
    ensures
        sum == match (a, b) {
            (Some(a), Some(b)) => as_count(a + b),
            _ => None,
        },
{
    match (a, b) {
        (Some(a), Some(b)) => a.checked_add(b),
        _ => None,
    }
}

/// `times` times `rows` rows of `cols` values, where that is a count.
pub fn count_rows(times: usize, rows: usize, cols: usize) -> (count: Option<usize>)
    ensures
        count == as_count(times * (rows * cols)),
{
    proof {
        assert(0 <= times * (rows * cols)) by (nonlinear_arith);
        assert(times >= 1 ==> times * (rows * cols) >= rows * cols) by (nonlinear_arith);
        assert(times == 0 ==> times * (rows * cols) == 0) by (nonlinear_arith);
    }
    if times == 0 {
        return Some(0);
    }
    match rows.checked_mul(cols) {
        Some(values) => times.checked_mul(values),
        None => None,
    }
}

} // verus!
