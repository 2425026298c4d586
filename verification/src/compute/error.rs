//! Errors of the compute side.

use vstd::prelude::*;

verus! {

/// Weight encodings that the block decoder knows.
#[derive(Clone, Copy, Debug, PartialEq, Eq, Structural)]
pub enum DiskQuantFormat {
    Int4Symmetric,
    Int4Affine,
    Int8Symmetric,
}

/// Why a compute step was refused.
#[derive(Clone, Copy, Debug)]
pub enum ComputeError {
    EmptyGroupSize,
    InvalidQuantBlockMagic([u8; 8]),
    UnsupportedQuantBlockVersion(u32),
    TruncatedQuantBlock(&'static str),
    InvalidQuantBlock(&'static str),
    TensorIndexOutOfRange { index: usize, count: usize },
    InvalidPointer(&'static str),
    InvalidShape(&'static str),
    OutputTooSmall { required: usize, actual: usize },
    ScratchTooSmall { required: usize, actual: usize },
    MissingScale { group: usize },
    MissingZeroPoint { group: usize },
    UnsupportedQuantFormat(DiskQuantFormat),
}

/// An executable result carries the error of the model, or a value whose view
/// is the model's value.
pub open spec fn agrees<T: View, E>(result: Result<T, E>, model: Result<T::V, E>) -> bool {
    match result {
        Ok(value) => model == Ok::<T::V, E>(value@),
        Err(error) => model == Err::<T::V, E>(error),
    }
}

/// `agrees`, for a search that may come back empty-handed.
pub open spec fn found_agrees<T: View, E>(
    result: Result<Option<T>, E>,
    model: Result<Option<T::V>, E>,
) -> bool {
    match result {
        Ok(Some(value)) => model == Ok::<Option<T::V>, E>(Some(value@)),
        Ok(None) => model == Ok::<Option<T::V>, E>(None),
        Err(error) => model == Err::<Option<T::V>, E>(error),
    }
}

} // verus!
