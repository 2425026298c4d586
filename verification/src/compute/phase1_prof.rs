//! Time spent in the parts of the attention.

use crate::bytes::{push_bytes, push_decimal};
use vstd::prelude::*;

verus! {

use crate::bytes::digits_of;
use vstd::string::StringSliceAdditionalSpecFns;

/// Nanoseconds spent in each part.
#[derive(Clone, Copy, Debug, PartialEq, Eq, Structural)]
pub struct Phase1Counters {
    pub q_ns: u64,
    pub kv_ns: u64,
    pub compressor_ns: u64,
    pub window_ns: u64,
    pub o_ns: u64,
}

/// Adds the time that passed to a counter, which starts again from zero behind
/// its largest value.
pub fn add(counter: &mut u64, elapsed_ns: u128)
    ensures
        *final(counter) == (*old(counter) + elapsed_ns as u64) % 0x1_0000_0000_0000_0000,
{
    *counter = counter.wrapping_add(elapsed_ns as u64);
}

/// The counters in milliseconds, as a line.
pub open spec fn line_of(counters: Phase1Counters) -> Seq<u8> {
    "q_ms=".spec_bytes() + digits_of((counters.q_ns / 1_000_000) as nat) + " kv_ms=".spec_bytes()
        + digits_of((counters.kv_ns / 1_000_000) as nat) + " compressor_ms=".spec_bytes()
        + digits_of((counters.compressor_ns / 1_000_000) as nat) + " window_ms=".spec_bytes()
        + digits_of((counters.window_ns / 1_000_000) as nat) + " o_ms=".spec_bytes() + digits_of(
        (counters.o_ns / 1_000_000) as nat,
    )
}

/// The counters in milliseconds, as a line; they start from zero again.
pub fn dump_and_reset(counters: &mut Phase1Counters) -> (line: Vec<u8>)
    ensures
        line@ == line_of(*old(counters)),
        *final(counters) == (Phase1Counters {
            q_ns: 0,
            kv_ns: 0,
            compressor_ns: 0,
            window_ns: 0,
            o_ns: 0,
        }),
{
    let mut line: Vec<u8> = Vec::new();
    push_bytes(&mut line, "q_ms=".as_bytes());
    push_decimal(&mut line, counters.q_ns / 1_000_000);
    push_bytes(&mut line, " kv_ms=".as_bytes());
    push_decimal(&mut line, counters.kv_ns / 1_000_000);
    push_bytes(&mut line, " compressor_ms=".as_bytes());
    push_decimal(&mut line, counters.compressor_ns / 1_000_000);
    push_bytes(&mut line, " window_ms=".as_bytes());
    push_decimal(&mut line, counters.window_ns / 1_000_000);
    push_bytes(&mut line, " o_ms=".as_bytes());
    push_decimal(&mut line, counters.o_ns / 1_000_000);
    proof {
        assert(line@ =~= line_of(*counters));
    }
    *counters = Phase1Counters { q_ns: 0, kv_ns: 0, compressor_ns: 0, window_ns: 0, o_ns: 0 };
    line
}

} // verus!
