//! Rounding activations to FP8: the values that there are, and the two that a
//! number lies between.

use crate::deepseek_v4::decode_fp8_e4m3;
use crate::floats::bits_greater;
use crate::order::{rank_descending, total_order_key};
use vstd::prelude::*;

verus! {

use crate::deepseek_v4::fp8_bits;
use crate::floats::{greater, total_key};
use crate::order::{law_ranked_sorts, ranked};

/// Values in rising order.
pub open spec fn rising(values: Seq<u32>) -> bool {
    forall|i: int, j: int|
        0 <= i <= j < values.len() ==> total_key(#[trigger] values[i]) <= total_key(
            #[trigger] values[j],
        )
}

/// The patterns of all FP8 bytes, in the order of the bytes.
pub open spec fn fp8_values() -> Seq<u32> {
    Seq::new(256, |byte: int| fp8_bits(byte as u8))
}

spec fn keyed_values(values: Seq<u32>) -> Seq<(i128, u32)> {
    values.map_values(|bits: u32| (total_key(bits) as i128, bits))
}

spec fn without_keys(entries: Seq<(i128, u32)>) -> Seq<u32> {
    entries.map_values(|entry: (i128, u32)| entry.1)
}

proof fn lemma_entries_keyed(values: Seq<u32>)
    ensures
        forall|i: int|
            0 <= i < ranked(keyed_values(values)).len() ==> (#[trigger] ranked(
                keyed_values(values),
            )[i]).0 == total_key(ranked(keyed_values(values))[i].1),
        without_keys(ranked(keyed_values(values))).to_multiset() == values.to_multiset(),
{
    let keys = keyed_values(values);
    let sorted = ranked(keys);
    law_ranked_sorts(keys);
    assert forall|i: int| 0 <= i < sorted.len() implies (#[trigger] sorted[i]).0 == total_key(
        sorted[i].1,
    ) by {
        broadcast use vstd::seq_lib::group_to_multiset_ensures;

        assert(sorted.contains(sorted[i]));
        assert(sorted.to_multiset().count(sorted[i]) > 0);
        assert(keys.contains(sorted[i]));
        let c = choose|c: int| 0 <= c < keys.len() && keys[c] == sorted[i];
        assert(keys[c].1 == values[c]);
    }
    lemma_same_values(values);
}

proof fn lemma_same_values(values: Seq<u32>)
    ensures
        without_keys(ranked(keyed_values(values))).to_multiset() == values.to_multiset(),
    decreases values.len(),
{
    let keys = keyed_values(values);
    if values.len() == 0 {
        assert(without_keys(ranked(keys)) =~= values);
    } else {
        let rest = values.drop_last();
        lemma_same_values(rest);
        assert(keys.drop_last() =~= keyed_values(rest));
        let before = ranked(keyed_values(rest));
        let at = crate::order::slot_for(before, keys.last().0, before.len() as int);
        law_ranked_sorts(keyed_values(rest));
        lemma_slot_in_range(before, keys.last().0, before.len() as int);
        assert(ranked(keys) == before.insert(at, keys.last()));
        assert(without_keys(before.insert(at, keys.last())) =~= without_keys(before).insert(
            at,
            values.last(),
        ));
        vstd::seq_lib::to_multiset_insert(without_keys(before), at, values.last());
        vstd::seq_lib::to_multiset_build(rest, values.last());
        assert(rest.push(values.last()) =~= values);
    }
}

proof fn lemma_slot_in_range(s: Seq<(i128, u32)>, key: i128, n: int)
    requires
        0 <= n <= s.len(),
    ensures
        0 <= crate::order::slot_for(s, key, n) <= n,
    decreases n,
{
    if n > 0 && s[n - 1].0 < key {
        lemma_slot_in_range(s, key, n - 1);
    }
}

/// All FP8 values, in rising order.
pub fn fp8_e4m3_sorted_lut() -> (lut: Vec<u32>)
    ensures
        lut@.len() == 256,
        rising(lut@),
        lut@.to_multiset() == fp8_values().to_multiset(),
{
    let mut keys: Vec<(i128, u32)> = Vec::new();
    let mut byte: usize = 0;
    while byte < 256
        invariant
            byte <= 256,
            keys@ == keyed_values(fp8_values().take(byte as int)),
        decreases 256 - byte,
    {
        let bits: u32 = decode_fp8_e4m3(byte as u8);
        let key: i128 = total_order_key(bits);
        keys.push((key, bits));
        proof {
            assert(keys@ =~= keyed_values(fp8_values().take(byte + 1)));
        }
        byte += 1;
    }
    proof {
        assert(fp8_values().take(256) =~= fp8_values());
        law_ranked_sorts(keys@);
        lemma_entries_keyed(fp8_values());
    }
    let sorted: Vec<(i128, u32)> = rank_descending(&keys);
    let ghost falling = without_keys(sorted@);
    let mut lut: Vec<u32> = Vec::new();
    let mut i: usize = 256;
    while i > 0
        invariant
            i <= 256,
            sorted@.len() == 256,
            falling == without_keys(sorted@),
            lut@ == falling.reverse().take(256 - i),
        decreases i,
    {
        i -= 1;
        lut.push(sorted[i].1);
        proof {
            assert(lut@ =~= falling.reverse().take(256 - i));
        }
    }
    proof {
        assert(lut@ =~= falling.reverse());
        falling.lemma_reverse_to_multiset();
        assert forall|i: int, j: int| 0 <= i <= j < lut@.len() implies total_key(
            #[trigger] lut@[i],
        ) <= total_key(#[trigger] lut@[j]) by {
            assert(lut@[i] == sorted@[255 - i].1);
            assert(lut@[j] == sorted@[255 - j].1);
            assert(sorted@[255 - j].0 >= sorted@[255 - i].0);
        }
    }
    lut
}

/// How many values at the front are below the target.
pub open spec fn below(lut: Seq<u32>, target: u32, from: int) -> int
    decreases lut.len() - from,
{
    if from < lut.len() && greater(target, lut[from]) {
        below(lut, target, from + 1)
    } else {
        from
    }
}

/// The last value below the target and the first that is not; at the ends of
/// the table, the value at the end.
pub fn lut_neighbours(lut: &[u32], target: u32) -> (pair: (u32, u32))
    requires
        lut@.len() > 0,
    ensures
        ({
            let at = below(lut@, target, 0);
            let end = lut@.len() - 1;
            &&& pair.0 == lut@[if at == 0 {
                0
            } else if at - 1 < end {
                at - 1
            } else {
                end
            }]
            &&& pair.1 == lut@[if at < end {
                at
            } else {
                end
            }]
        }),
{
    let mut at: usize = 0;
    while at < lut.len() && bits_greater(target, lut[at])
        invariant
            at <= lut@.len(),
            below(lut@, target, 0) == below(lut@, target, at as int),
        decreases lut@.len() - at,
    {
        at += 1;
    }
    let end: usize = lut.len() - 1;
    let lower: usize = if at == 0 {
        0
    } else {
        at - 1
    };
    let upper: usize = if at < end {
        at
    } else {
        end
    };
    (lut[lower], lut[upper])
}

/// Whatever the table, the first neighbour is below the target, unless none
/// is, and the second is not, unless all are.
pub proof fn law_neighbours_enclose(lut: Seq<u32>, target: u32)
    requires
        lut.len() > 0,
    ensures
        ({
            let at = below(lut, target, 0);
            &&& 0 <= at <= lut.len()
            &&& at > 0 ==> greater(target, lut[at - 1])
            &&& at < lut.len() ==> !greater(target, lut[at])
        }),
{
    lemma_below(lut, target, 0);
}

proof fn lemma_below(lut: Seq<u32>, target: u32, from: int)
    requires
        0 <= from <= lut.len(),
        from > 0 ==> greater(target, lut[from - 1]),
    ensures
        ({
            let at = below(lut, target, from);
            &&& from <= at <= lut.len()
            &&& at > 0 ==> greater(target, lut[at - 1])
            &&& at < lut.len() ==> !greater(target, lut[at])
        }),
    decreases lut.len() - from,
{
    if from < lut.len() && greater(target, lut[from]) {
        lemma_below(lut, target, from + 1);
    }
}

/// What `lut_neighbours` returns: two values of the table around the target. The
/// lower one is below it unless it is the first, and the upper one is not unless it
/// is the last.
pub proof fn law_lut_neighbours(lut: &[u32], target: u32, pair: (u32, u32))
    requires
        lut@.len() > 0,
        call_ensures(lut_neighbours, (lut, target), pair),
    ensures
        lut@.contains(pair.0) && lut@.contains(pair.1),
        pair.0 == lut@[0] || greater(target, pair.0),
        pair.1 == lut@.last() || !greater(target, pair.1),
{
    law_neighbours_enclose(lut@, target);
    let at = below(lut@, target, 0);
    let end = lut@.len() - 1;
    let low = if at == 0 {
        0
    } else if at - 1 < end {
        at - 1
    } else {
        end
    };
    let high = if at < end {
        at
    } else {
        end
    };
    assert(lut@[low] == pair.0);
    assert(lut@[high] == pair.1);
}

} // verus!
