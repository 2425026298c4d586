//! The rules of the tools around the library: their made-up data, and what they
//! check.

use crate::bytes::{bytes_equal, parse_decimal};
use crate::compute::expert_cache::{ascii_part, chars_of, end_of_run};
use crate::model_format::QUANT_BLOCK_MAGIC;
use vstd::prelude::*;

verus! {

use crate::bytes::decimal;
use crate::compute::expert_cache::{ascii, run_end};

/// A byte of made-up weights: two numbers of three bits.
pub open spec fn packed_byte(seed: u8, index: int) -> u8 {
    let low = (index % 256 + seed) % 8;
    let high = (index % 256 * 3 + seed + 1) % 8;
    (low + 16 * high) as u8
}

/// Fills made-up weights.
pub fn fill_packed(seed: u8, bytes: &mut [u8])
    requires
        seed < 255,
    ensures
        final(bytes)@ == Seq::new(old(bytes)@.len(), |i: int| packed_byte(seed, i)),
{
    let len: usize = bytes.len();
    let mut i: usize = 0;
    while i < len
        invariant
            i <= len,
            len == bytes@.len() == old(bytes)@.len(),
            seed < 255,
            forall|j: int| 0 <= j < i ==> bytes@[j] == packed_byte(seed, j),
        decreases len - i,
    {
        let index: u32 = (i % 256) as u32;
        let low: u32 = (index + seed as u32) % 8;
        let high: u32 = (index * 3 + seed as u32 + 1) % 8;
        bytes[i] = (low + 16 * high) as u8;
        i += 1;
    }
    proof {
        assert(bytes@ =~= Seq::new(old(bytes)@.len(), |i: int| packed_byte(seed, i)));
    }
}

/// The shape of the expert that is measured.
#[derive(Clone, Copy, Debug, PartialEq, Eq, Structural)]
pub struct BenchShape {
    pub gate_bytes: usize,
    pub down_bytes: usize,
    pub gate_scales: usize,
    pub down_scale_cols: usize,
    pub down_scales: usize,
}

/// Why a shape cannot be measured.
#[derive(Clone, Copy, Debug, PartialEq, Eq, Structural)]
pub enum BenchShapeError {
    Shape,
    DownScales { columns: usize },
}

/// The sizes of an expert with `hidden` inputs and `intermediate` values.
pub fn plan_bench(hidden: usize, intermediate: usize, scale_cols: usize) -> (result: Result<
    BenchShape,
    BenchShapeError,
>)
    requires
        hidden < usize::MAX,
        intermediate < usize::MAX,
        intermediate * hidden <= usize::MAX,
        intermediate * scale_cols <= usize::MAX,
        hidden * scale_cols <= usize::MAX,
        intermediate * ((hidden + 1) / 2) <= usize::MAX,
        hidden * ((intermediate + 1) / 2) <= usize::MAX,
    ensures
        ({
            let columns = if scale_cols < intermediate {
                scale_cols
            } else {
                intermediate
            };
            result == if hidden == 0 || intermediate == 0 || scale_cols == 0 || hidden % scale_cols
                != 0 {
                Err(BenchShapeError::Shape)
            } else if intermediate % columns != 0 {
                Err(BenchShapeError::DownScales { columns })
            } else {
                Ok(
                    BenchShape {
                        gate_bytes: (intermediate * ((hidden + 1) / 2)) as usize,
                        down_bytes: (hidden * ((intermediate + 1) / 2)) as usize,
                        gate_scales: (intermediate * scale_cols) as usize,
                        down_scale_cols: columns,
                        down_scales: (hidden * columns) as usize,
                    },
                )
            }
        }),
{
    if hidden == 0 || intermediate == 0 || scale_cols == 0 || hidden % scale_cols != 0 {
        return Err(BenchShapeError::Shape);
    }
    let columns: usize = if scale_cols < intermediate {
        scale_cols
    } else {
        intermediate
    };
    if intermediate % columns != 0 {
        return Err(BenchShapeError::DownScales { columns });
    }
    proof {
        assert(hidden * columns <= hidden * scale_cols) by (nonlinear_arith)
            requires
                columns <= scale_cols,
                hidden >= 0,
        ;
    }
    Ok(
        BenchShape {
            gate_bytes: intermediate * ((hidden + 1) / 2),
            down_bytes: hidden * ((intermediate + 1) / 2),
            gate_scales: intermediate * scale_cols,
            down_scale_cols: columns,
            down_scales: hidden * columns,
        },
    )
}

/// How many reads may wait or be under way at once: those of `depth` layers.
pub fn max_request_window(depth: usize, active_experts: u32) -> (window: usize)
    ensures
        ({
            let layers = if depth == 0 {
                1
            } else {
                depth as int
            };
            let each = if active_experts + 1 <= usize::MAX {
                active_experts + 1
            } else {
                usize::MAX as int
            };
            window == if layers * each <= usize::MAX {
                layers * each
            } else {
                usize::MAX as int
            }
        }),
{
    let layers: usize = if depth == 0 {
        1
    } else {
        depth
    };
    let each: usize = match (active_experts as usize).checked_add(1) {
        Some(each) => each,
        None => usize::MAX,
    };
    match layers.checked_mul(each) {
        Some(window) => window,
        None => usize::MAX,
    }
}

/// Round and layer of the `next`th plan.
pub fn plan_place(next: u64, layer_count: u64) -> (place: (u32, u32))
    requires
        layer_count > 0,
    ensures
        place == ((next / layer_count) as u32, (next % layer_count) as u32),
{
    ((next / layer_count) as u32, (next % layer_count) as u32)
}

/// An expert that a made-up router picks, as the `place`th.
#[derive(Clone, Copy, Debug, PartialEq, Eq, Structural)]
pub struct MadeUpRoute {
    pub expert_id: u32,
    pub place: u32,
}

pub const BASE_PATTERN: [u32; 16] = [1, 4, 0, 7, 2, 5, 3, 6, 4, 1, 7, 0, 5, 2, 6, 3];

/// The expert that the made-up router names as the `i`th.
pub open spec fn named_expert(layer_id: u32, round: u32, experts: u32, i: u32) -> u32 {
    let base = if i < 2 {
        BASE_PATTERN@[(layer_id as int % 8) * 2 + i] as int
    } else {
        layer_id * 17 + i * 5
    };
    ((base + round * 3) % 0x1_0000_0000 % experts as int) as u32
}

/// The routes hold an expert.
pub open spec fn holds_expert(routes: Seq<MadeUpRoute>, expert_id: u32) -> bool {
    exists|i: int| 0 <= i < routes.len() && (#[trigger] routes[i]).expert_id == expert_id
}

/// The experts that the made-up router picks among the first `n` that it names:
/// each once.
pub open spec fn made_up_routes(layer_id: u32, round: u32, experts: u32, n: int) -> Seq<MadeUpRoute>
    decreases n,
{
    if n <= 0 {
        Seq::empty()
    } else {
        let before = made_up_routes(layer_id, round, experts, n - 1);
        let expert_id = named_expert(layer_id, round, experts, (n - 1) as u32);
        if holds_expert(before, expert_id) {
            before
        } else {
            before.push(MadeUpRoute { expert_id, place: (n - 1) as u32 })
        }
    }
}

fn routes_hold(routes: &[MadeUpRoute], expert_id: u32) -> (found: bool)
    ensures
        found == holds_expert(routes@, expert_id),
{
    let mut i: usize = 0;
    while i < routes.len()
        invariant
            i <= routes.len(),
            forall|j: int| 0 <= j < i ==> (#[trigger] routes[j]).expert_id != expert_id,
        decreases routes.len() - i,
    {
        if routes[i].expert_id == expert_id {
            return true;
        }
        i += 1;
    }
    false
}

fn name_expert(layer_id: u32, round: u32, experts: u32, i: u32) -> (expert_id: u32)
    requires
        experts > 0,
    ensures
        expert_id == named_expert(layer_id, round, experts, i),
{
    let base: u64 = if i < 2 {
        BASE_PATTERN[((layer_id % 8) * 2 + i) as usize] as u64
    } else {
        layer_id as u64 * 17 + i as u64 * 5
    };
    let sum: u64 = base + round as u64 * 3;
    ((sum % 0x1_0000_0000) % experts as u64) as u32
}

/// The experts that the made-up router picks for a layer.
pub fn deterministic_routes(
    layer_id: u32,
    round: u32,
    experts_per_layer: u32,
    active_experts: u32,
) -> (routes: Vec<MadeUpRoute>)
    requires
        experts_per_layer > 0,
    ensures
        routes@ == made_up_routes(layer_id, round, experts_per_layer, active_experts as int),
{
    let mut routes: Vec<MadeUpRoute> = Vec::new();
    let mut i: u32 = 0;
    while i < active_experts
        invariant
            i <= active_experts,
            experts_per_layer > 0,
            routes@ == made_up_routes(layer_id, round, experts_per_layer, i as int),
        decreases active_experts - i,
    {
        let expert_id: u32 = name_expert(layer_id, round, experts_per_layer, i);
        if !routes_hold(routes.as_slice(), expert_id) {
            routes.push(MadeUpRoute { expert_id, place: i });
        }
        i += 1;
    }
    routes
}

/// The made-up router names experts of the layer, none twice.
pub proof fn law_made_up_routes_differ(layer_id: u32, round: u32, experts: u32, n: int)
    requires
        experts > 0,
    ensures
        ({
            let routes = made_up_routes(layer_id, round, experts, n);
            &&& forall|i: int| 0 <= i < routes.len() ==> (#[trigger] routes[i]).expert_id < experts
            &&& forall|i: int, j: int|
                0 <= i < j < routes.len() ==> (#[trigger] routes[i]).expert_id != (
                #[trigger] routes[j]).expert_id
        }),
    decreases n,
{
    if n > 0 {
        law_made_up_routes_differ(layer_id, round, experts, n - 1);
        let before = made_up_routes(layer_id, round, experts, n - 1);
        let expert_id = named_expert(layer_id, round, experts, (n - 1) as u32);
        if !holds_expert(before, expert_id) {
            assert forall|i: int| 0 <= i < before.len() implies (#[trigger] before[i]).expert_id
                != expert_id by {}
        }
    }
}

/// Counts a block that is ready: one read more, and its bytes where it did not
/// fail.
pub fn count_ready(reads: &mut u64, bytes: &mut u64, result: i32)
    requires
        *old(reads) < u64::MAX,
        result > 0 ==> *old(bytes) + result <= u64::MAX,
    ensures
        *final(reads) == *old(reads) + 1,
        *final(bytes) == if result > 0 {
            *old(bytes) + result
        } else {
            *old(bytes) as int
        },
{
    *reads = *reads + 1;
    if result > 0 {
        *bytes = *bytes + result as u64;
    }
}

/// The first place from `at` on behind a line break, or the end.
pub open spec fn next_line(text: Seq<char>, at: int) -> int
    decreases text.len() - at,
{
    if at < 0 || at >= text.len() {
        at
    } else if text[at] == '\n' {
        at + 1
    } else {
        next_line(text, at + 1)
    }
}

/// The first word from `at` on, within the line.
pub open spec fn word_from(text: Seq<char>, at: int, end: int) -> Seq<char> {
    let line = text.take(end);
    let start = run_end(line, true, at);
    line.subrange(start, run_end(line, false, start))
}

/// The number behind `label` in the first line that begins with it.
pub open spec fn labelled(text: Seq<char>, label: Seq<char>, at: int) -> Option<nat>
    decreases text.len() - at,
{
    let end = next_line(text, at);
    if at < 0 || !(at < end <= text.len()) {
        None
    } else if at + label.len() <= end && text.subrange(at, at + label.len()) == label {
        let word = ascii(word_from(text, at + label.len(), end));
        match decimal(word) {
            Some(value) => if value <= u64::MAX {
                Some(value)
            } else {
                None
            },
            None => None,
        }
    } else {
        labelled(text, label, end)
    }
}

proof fn lemma_next_line(text: Seq<char>, at: int)
    requires
        0 <= at < text.len(),
    ensures
        at < next_line(text, at) <= text.len(),
    decreases text.len() - at,
{
    if at + 1 < text.len() {
        lemma_next_line(text, at + 1);
    } else {
        assert(next_line(text, at + 1) == at + 1);
    }
}

/// The resident memory in kilobytes, from what the system says of a process.
pub fn rss_kb(status: &str) -> (value: Option<u64>)
    ensures
        match labelled(status@, "VmRSS:"@, 0) {
            Some(number) => value == Some(number as u64),
            None => value is None,
        },
{
    let text: Vec<char> = chars_of(status);
    let label: Vec<char> = chars_of("VmRSS:");
    let len: usize = text.len();
    let mut at: usize = 0;
    while at < len
        invariant
            at <= len == text@.len(),
            text@ == status@,
            label@ == "VmRSS:"@,
            labelled(status@, "VmRSS:"@, 0) == labelled(text@, label@, at as int),
        decreases len - at,
    {
        let mut end: usize = at;
        while end < len && text[end] != '\n'
            invariant
                at <= end <= len == text@.len(),
                next_line(text@, at as int) == next_line(text@, end as int),
            decreases len - end,
        {
            end += 1;
        }
        if end < len {
            end += 1;
        }
        proof {
            lemma_next_line(text@, at as int);
            assert(end == next_line(text@, at as int));
        }
        let line: &[char] = vstd::slice::slice_subrange(text.as_slice(), 0, end);
        proof {
            assert(line@ =~= text@.take(end as int));
            if at + label@.len() <= end {
                assert(line@.subrange(at as int, at + label@.len()) =~= text@.subrange(
                    at as int,
                    at + label@.len(),
                ));
            }
        }
        if end - at >= label.len() && begins_at(line, label.as_slice(), at) {
            let start: usize = end_of_run(line, true, at + label.len());
            let stop: usize = end_of_run(line, false, start);
            let word: Vec<u8> = ascii_part(line, start, stop);
            return parse_decimal(word.as_slice(), u64::MAX);
        }
        at = end;
    }
    None
}

fn begins_at(text: &[char], label: &[char], at: usize) -> (same: bool)
    requires
        at + label.len() <= text.len(),
    ensures
        same == (text@.subrange(at as int, at + label.len()) == label@),
{
    let ghost part = text@.subrange(at as int, at + label.len());
    let mut i: usize = 0;
    while i < label.len()
        invariant
            i <= label.len(),
            at + label.len() <= text.len(),
            part == text@.subrange(at as int, at + label.len()),
            forall|j: int| 0 <= j < i ==> part[j] == label@[j],
        decreases label.len() - i,
    {
        if text[at + i] != label[i] {
            proof {
                assert(part[i as int] != label@[i as int]);
            }
            return false;
        }
        i += 1;
    }
    proof {
        assert(part =~= label@);
    }
    true
}

/// Why a file that was fetched is refused.
#[derive(Clone, Copy, Debug, PartialEq, Eq, Structural)]
pub enum FetchedError {
    Size { actual: u64, expected: u64 },
    Unaligned,
    Magic,
}

/// Checks a file that was fetched: its length, that it fills whole pages of the
/// model, and the mark it begins with.
pub fn check_fetched(actual: u64, expected: u64, magic: &[u8]) -> (result: Result<
    (),
    FetchedError,
>)
    ensures
        result == if actual != expected {
            Err::<(), FetchedError>(FetchedError::Size { actual, expected })
        } else if actual % crate::ALIGN_2MB != 0 {
            Err(FetchedError::Unaligned)
        } else if magic@ != QUANT_BLOCK_MAGIC@ {
            Err(FetchedError::Magic)
        } else {
            Ok(())
        },
{
    if actual != expected {
        return Err(FetchedError::Size { actual, expected });
    }
    if actual % crate::ALIGN_2MB != 0 {
        return Err(FetchedError::Unaligned);
    }
    let mark: [u8; 8] = QUANT_BLOCK_MAGIC;
    if !bytes_equal(magic, &mark) {
        return Err(FetchedError::Magic);
    }
    Ok(())
}

/// The next of a row of made-up numbers.
pub open spec fn shuffled(seed: u64) -> u64 {
    let first = seed ^ (seed << 13);
    let second = first ^ (first >> 7);
    second ^ (second << 17)
}

/// The next of a row of made-up numbers.
pub fn next_made_up(seed: u64) -> (next: u64)
    ensures
        next == shuffled(seed),
{
    let first: u64 = seed ^ (seed << 13);
    let second: u64 = first ^ (first >> 7);
    second ^ (second << 17)
}

/// The row of made-up numbers never falls to zero, where it would stay.
pub proof fn law_made_up_never_stalls(seed: u64)
    requires
        seed != 0,
    ensures
        shuffled(seed) != 0,
{
    let first = seed ^ (seed << 13);
    let second = first ^ (first >> 7);
    assert(seed != 0 && first == seed ^ (seed << 13) ==> first != 0) by (bit_vector);
    assert(first != 0 && second == first ^ (first >> 7) ==> second != 0) by (bit_vector);
    assert(second != 0 ==> second ^ (second << 17) != 0) by (bit_vector);
}

/// Places go through all layers of a round before the next round starts.
pub proof fn law_places_go_round(next: u64, layer_count: u64, place: (u32, u32))
    requires
        0 < layer_count <= u32::MAX,
        next <= u32::MAX,
        call_ensures(plan_place, (next, layer_count), place),
    ensures
        place.1 < layer_count,
        place.0 * layer_count + place.1 == next,
{
    vstd::arithmetic::div_mod::lemma_fundamental_div_mod(next as int, layer_count as int);
    vstd::arithmetic::div_mod::lemma_mod_bound(next as int, layer_count as int);
    let q = next as int / layer_count as int;
    assert(q * layer_count == layer_count * q) by (nonlinear_arith);
    assert(0 <= q <= next) by (nonlinear_arith)
        requires
            layer_count * q <= next,
            next < layer_count * q + layer_count,
            layer_count > 0,
            next >= 0,
    ;
}

} // verus!
