//! What the environment switches on.

use crate::bytes::{parse_decimal, text_equal};
use crate::compute::expert_cache::{ascii_part, char_is_space, chars_of, end_of_run};
use vstd::prelude::*;

verus! {

use crate::bytes::decimal;
use crate::compute::expert_cache::{ascii, is_space, run_end};

/// The place behind the last character before `end` that is no white space.
pub open spec fn trimmed_end(text: Seq<char>, start: int, end: int) -> int
    decreases end - start,
{
    if end <= start || !is_space(text[end - 1]) {
        end
    } else {
        trimmed_end(text, start, end - 1)
    }
}

/// A text without the white space around it.
pub open spec fn trimmed(text: Seq<char>) -> Seq<char> {
    let start = run_end(text, true, 0);
    text.subrange(start, trimmed_end(text, start, text.len() as int))
}

fn trimmed_bytes(value: &str) -> (bytes: Vec<u8>)
    ensures
        bytes@ == ascii(trimmed(value@)),
{
    let text: Vec<char> = chars_of(value);
    let len: usize = text.len();
    let start: usize = end_of_run(text.as_slice(), true, 0);
    let mut end: usize = len;
    while end > start && char_is_space(text[end - 1])
        invariant
            start <= end <= len == text@.len(),
            trimmed_end(text@, start as int, len as int) == trimmed_end(
                text@,
                start as int,
                end as int,
            ),
        decreases end - start,
    {
        end -= 1;
    }
    ascii_part(text.as_slice(), start, end)
}

/// Are the lines of the inner loops written? Only with the value `1`.
pub fn verbose_logging(value: Option<&str>) -> (on: bool)
    ensures
        on == match value {
            Some(value) => value@ == "1"@,
            None => false,
        },
{
    match value {
        Some(value) => text_equal(value, "1"),
        None => false,
    }
}

/// Are experts of the shard map added to the layers of a model? Only with the
/// values `all` and `1`.
pub fn sidecar_expert_merge_enabled(value: Option<&str>) -> (on: bool)
    ensures
        on == match value {
            Some(value) => value@ == "all"@ || value@ == "1"@,
            None => false,
        },
{
    match value {
        Some(value) => text_equal(value, "all") || text_equal(value, "1"),
        None => false,
    }
}

/// Are several positions attended to one by one? Where `ZC_MLA_BATCH` is `0`, and
/// where a debugging switch asks for the values in between.
pub fn attends_one_by_one(batch: Option<&str>, dumps_attention: bool, debugs: bool) -> (on: bool)
    ensures
        on == (dumps_attention || debugs || match batch {
            Some(value) => value@ == "0"@,
            None => false,
        }),
{
    let off: bool = match batch {
        Some(value) => text_equal(value, "0"),
        None => false,
    };
    off || dumps_attention || debugs
}

/// Is the head kept in memory? Only with the value `1`, with or without white
/// space around it.
pub fn lm_head_cache_enabled(value: Option<&str>) -> (on: bool)
    ensures
        on == match value {
            Some(value) => ascii(trimmed(value@)) == seq![49u8],
            None => false,
        },
{
    match value {
        Some(value) => {
            let bytes: Vec<u8> = trimmed_bytes(value);
            let on: bool = bytes.len() == 1 && bytes[0] == 49;
            proof {
                if on {
                    assert(bytes@ =~= seq![49u8]);
                }
            }
            on
        },
        None => false,
    }
}

/// The number of threads that is set, where it is a number.
pub fn configured_threads(value: Option<&str>) -> (threads: Option<usize>)
    ensures
        threads == match value {
            Some(value) => match decimal(ascii(trimmed(value@))) {
                Some(threads) => if threads <= usize::MAX {
                    Some(threads as usize)
                } else {
                    None
                },
                None => None,
            },
            None => None,
        },
{
    match value {
        Some(value) => {
            let bytes: Vec<u8> = trimmed_bytes(value);
            match parse_decimal(bytes.as_slice(), usize::MAX as u64) {
                Some(threads) => Some(threads as usize),
                None => None,
            }
        },
        None => None,
    }
}

proof fn lemma_trimmed_end(text: Seq<char>, start: int, end: int, kept: int)
    requires
        0 <= start <= kept <= end <= text.len(),
        forall|i: int| kept <= i < end ==> is_space(#[trigger] text[i]),
        kept == start || !is_space(text[kept - 1]),
    ensures
        trimmed_end(text, start, end) == kept,
    decreases end - kept,
{
    if kept < end {
        lemma_trimmed_end(text, start, end - 1, kept);
    }
}

proof fn lemma_spaces(text: Seq<char>, from: int, end: int)
    requires
        0 <= from <= end < text.len(),
        forall|i: int| from <= i < end ==> is_space(#[trigger] text[i]),
        !is_space(text[end]),
    ensures
        run_end(text, true, from) == end,
    decreases end - from,
{
    if from < end {
        lemma_spaces(text, from + 1, end);
    }
}

/// Trimming takes the spaces off both ends and leaves what stands between them,
/// spaces within it too.
pub proof fn law_trimming_leaves_the_text(lead: Seq<char>, text: Seq<char>, trail: Seq<char>)
    requires
        forall|i: int| 0 <= i < lead.len() ==> is_space(#[trigger] lead[i]),
        forall|i: int| 0 <= i < trail.len() ==> is_space(#[trigger] trail[i]),
        text.len() > 0,
        !is_space(text[0]),
        !is_space(text.last()),
    ensures
        trimmed(lead + text + trail) == text,
{
    let whole = lead + text + trail;
    let start = lead.len() as int;
    let end = start + text.len();
    lemma_spaces(whole, 0, start);
    lemma_trimmed_end(whole, start, whole.len() as int, end);
    assert(whole.subrange(start, end) =~= text);
}

} // verus!
