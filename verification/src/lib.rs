//! Core of a mixture-of-experts inference engine: the block and manifest
//! formats, the expert I/O scheduler, and the planning side of the compute
//! kernels, with every decision stated as a contract and proved.

pub mod args;
pub mod bench;
pub mod bytes;
pub mod compute;
pub mod deepseek_v4;
pub mod direct_io;
pub mod floats;
pub mod glm_dsa_indexer;
pub mod messages;
pub mod model_format;
pub mod order;
pub mod pair_map;
pub mod row_index;
pub mod scheduler;
pub mod settings;

use vstd::prelude::*;

verus! {

/// Alignment of every block in a model file.
pub const ALIGN_2MB: u64 = 2097152;

/// True when `value` is a multiple of the block alignment.
pub fn is_aligned_2mb(value: u64) -> (aligned: bool)
    ensures
        aligned == (value % ALIGN_2MB == 0),
{
    value % ALIGN_2MB == 0
}

/// The least multiple of the block alignment that is not below `value`.
pub fn align_up_2mb(value: u64) -> (aligned: u64)
    requires
        value + ALIGN_2MB - 1 <= u64::MAX,
    ensures
        aligned % ALIGN_2MB == 0,
        value <= aligned < value + ALIGN_2MB,
{
    (value + (ALIGN_2MB - 1)) / ALIGN_2MB * ALIGN_2MB
}

} // verus!
