//! Decoding a block of packed integers: the integer and the scale behind each
//! value.

use crate::compute::config::{detect_best_kernel, CpuFeatures, CpuKernel};
use crate::compute::error::{ComputeError, DiskQuantFormat};
use crate::compute::gemv::i4_nibble_at;
use vstd::prelude::*;

verus! {

use crate::compute::config::best_kernel;
use crate::deepseek_v4::nibble_at;

/// How a block of packed integers is to be read. The values come in groups of
/// `group_size`, each with a scale and, in the affine format, a zero point; the
/// last ones stand for all groups behind them.
#[derive(Clone, Copy, Debug)]
pub struct QuantBlockParams<'a> {
    pub format: DiskQuantFormat,
    pub group_size: usize,
    pub scales: &'a [u32],
    pub zero_points: &'a [i8],
}

/// The entry of a group: its own, or else the last.
pub open spec fn group_entry<T>(entries: Seq<T>, group: int) -> T {
    if group < entries.len() {
        entries[group]
    } else {
        entries.last()
    }
}

/// Number of values in a block.
pub open spec fn value_count(packed: Seq<u8>, format: DiskQuantFormat) -> int {
    if format == DiskQuantFormat::Int8Symmetric {
        packed.len() as int
    } else {
        (2 * packed.len()) as int
    }
}

/// The integer of value `index`.
pub open spec fn integer_of(packed: Seq<u8>, params: QuantBlockParams<'_>, index: int) -> int {
    match params.format {
        DiskQuantFormat::Int4Symmetric => {
            let nibble = nibble_at(packed, index) as int;
            if nibble >= 8 {
                nibble - 16
            } else {
                nibble
            }
        },
        DiskQuantFormat::Int4Affine => nibble_at(packed, index) - group_entry(
            params.zero_points@,
            index / params.group_size as int,
        ),
        DiskQuantFormat::Int8Symmetric => if packed[index] >= 128 {
            packed[index] - 256
        } else {
            packed[index] as int
        },
    }
}

/// The values of a block: each as an integer and the scale that it is
/// multiplied by.
pub open spec fn block_values(packed: Seq<u8>, params: QuantBlockParams<'_>) -> Seq<(i8, u32)> {
    Seq::new(
        value_count(packed, params.format) as nat,
        |i: int|
            (
                integer_of(packed, params, i) as i8,
                group_entry(params.scales@, i / params.group_size as int),
            ),
    )
}

/// Why a block cannot be decoded, if it cannot.
pub open spec fn dequant_error(packed: Seq<u8>, params: QuantBlockParams<'_>, out_len: int) -> Option<
    ComputeError,
> {
    let count = value_count(packed, params.format);
    if params.group_size == 0 {
        Some(ComputeError::EmptyGroupSize)
    } else if out_len < count {
        Some(ComputeError::OutputTooSmall { required: count as usize, actual: out_len as usize })
    } else if count > 0 && params.scales@.len() == 0 {
        Some(ComputeError::MissingScale { group: 0 })
    } else if count > 0 && params.format == DiskQuantFormat::Int4Affine
        && params.zero_points@.len() == 0 {
        Some(ComputeError::MissingZeroPoint { group: 0 })
    } else {
        None
    }
}

fn entry_at<T: Copy>(entries: &[T], group: usize) -> (entry: T)
    requires
        entries@.len() > 0,
    ensures
        entry == group_entry(entries@, group as int),
{
    if group < entries.len() {
        entries[group]
    } else {
        entries[entries.len() - 1]
    }
}

/// Decodes a block into the integer and the scale of each value, and says which
/// kernel the machine has for it.
pub fn dequantize_block_simd(
    packed_weights: &[u8],
    params: QuantBlockParams<'_>,
    out_len: usize,
    features: CpuFeatures,
) -> (result: Result<(CpuKernel, Vec<(i8, u32)>), ComputeError>)
    requires
        2 * packed_weights@.len() <= usize::MAX,
        params.format == DiskQuantFormat::Int4Affine && params.zero_points@.len() > 0 ==> forall|
            i: int,
        |
            0 <= i < 2 * packed_weights@.len() ==> #[trigger] integer_of(
                packed_weights@,
                params,
                i,
            ) <= 127,
    ensures
        match dequant_error(packed_weights@, params, out_len as int) {
            Some(error) => result == Err::<(CpuKernel, Vec<(i8, u32)>), ComputeError>(error),
            None => {
                &&& result matches Ok(decoded)
                &&& decoded.1@ == block_values(packed_weights@, params)
                &&& decoded.0 == if params.format == DiskQuantFormat::Int8Symmetric {
                    CpuKernel::Scalar
                } else {
                    best_kernel(features)
                }
            },
        },
{
    if params.group_size == 0 {
        return Err(ComputeError::EmptyGroupSize);
    }
    let int8: bool = params.format == DiskQuantFormat::Int8Symmetric;
    let affine: bool = params.format == DiskQuantFormat::Int4Affine;
    let count: usize = if int8 {
        packed_weights.len()
    } else {
        2 * packed_weights.len()
    };
    if out_len < count {
        return Err(ComputeError::OutputTooSmall { required: count, actual: out_len });
    }
    if count > 0 && params.scales.len() == 0 {
        return Err(ComputeError::MissingScale { group: 0 });
    }
    if count > 0 && affine && params.zero_points.len() == 0 {
        return Err(ComputeError::MissingZeroPoint { group: 0 });
    }
    let ghost packed = packed_weights@;
    let mut values: Vec<(i8, u32)> = Vec::new();
    let mut i: usize = 0;
    while i < count
        invariant
            i <= count,
            packed == packed_weights@,
            count == value_count(packed, params.format),
            int8 == (params.format == DiskQuantFormat::Int8Symmetric),
            affine == (params.format == DiskQuantFormat::Int4Affine),
            params.group_size > 0,
            count > 0 ==> params.scales@.len() > 0,
            count > 0 && affine ==> params.zero_points@.len() > 0,
            affine && params.zero_points@.len() > 0 ==> forall|i: int|
                0 <= i < 2 * packed.len() ==> #[trigger] integer_of(packed, params, i) <= 127,
            values@ == block_values(packed, params).take(i as int),
        decreases count - i,
    {
        let group: usize = i / params.group_size;
        let scale: u32 = entry_at(params.scales, group);
        let integer: i8 = if int8 {
            let byte: u8 = packed_weights[i];
            if byte >= 128 {
                (byte as i16 - 256) as i8
            } else {
                byte as i8
            }
        } else {
            let nibble: u8 = i4_nibble_at(packed_weights, i);
            if affine {
                let zero: i8 = entry_at(params.zero_points, group);
                proof {
                    assert(integer_of(packed, params, i as int) <= 127);
                }
                nibble as i8 - zero
            } else if nibble >= 8 {
                nibble as i8 - 16
            } else {
                nibble as i8
            }
        };
        values.push((integer, scale));
        proof {
            assert(integer == integer_of(packed, params, i as int));
            assert(values@ =~= block_values(packed, params).take(i + 1));
        }
        i += 1;
    }
    proof {
        assert(values@ =~= block_values(packed, params));
    }
    let kernel: CpuKernel = if int8 {
        CpuKernel::Scalar
    } else {
        detect_best_kernel(features)
    };
    Ok((kernel, values))
}

/// A decoded value goes with the scale of its group, or with the last one where
/// there are fewer scales than groups. Two values stand in a byte, the first in
/// its low half; a signed value differs from its pattern by a multiple of the
/// range, and one with a zero point by the zero point of its group.
pub proof fn law_values_go_with_their_group(packed: Seq<u8>, params: QuantBlockParams<'_>, i: int)
    requires
        params.group_size > 0,
        params.scales@.len() > 0,
        params.format == DiskQuantFormat::Int4Affine ==> params.zero_points@.len() > 0,
        0 <= i < value_count(packed, params.format),
        integer_of(packed, params, i) <= 127,
    ensures
        ({
            let group = i / params.group_size as int;
            let value = block_values(packed, params)[i].0;
            let pattern = if i % 2 == 0 {
                packed[i / 2] % 16
            } else {
                packed[i / 2] / 16
            };
            &&& block_values(packed, params).len() == if params.format
                == DiskQuantFormat::Int8Symmetric {
                packed.len()
            } else {
                2 * packed.len()
            }
            &&& block_values(packed, params)[i].1 == if group < params.scales@.len() {
                params.scales@[group]
            } else {
                params.scales@.last()
            }
            &&& params.format == DiskQuantFormat::Int8Symmetric ==> value == packed[i] || value
                == packed[i] - 256
            &&& params.format == DiskQuantFormat::Int4Symmetric ==> -8 <= value < 8 && (value
                == pattern || value == pattern - 16)
            &&& params.format == DiskQuantFormat::Int4Affine ==> value == pattern - (if group
                < params.zero_points@.len() {
                params.zero_points@[group]
            } else {
                params.zero_points@.last()
            }) || pattern - (if group < params.zero_points@.len() {
                params.zero_points@[group]
            } else {
                params.zero_points@.last()
            }) < -128
        }),
{
    vstd::arithmetic::div_mod::lemma_div_pos_is_pos(i, params.group_size as int);
}

} // verus!
