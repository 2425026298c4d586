//! Ranking by score: a stable sort from the highest to the lowest, and a list
//! of the best that scores are offered to one by one.

use crate::floats::{bits_greater, total_above};
use vstd::prelude::*;

verus! {

use crate::floats::{greater, is_nan, number_key, total_key};

/// Place of a pattern in the total order of IEEE 754, as an integer.
pub fn total_order_key(bits: u32) -> (key: i128)
    ensures
        key == total_key(bits),
{
    let magnitude: i128 = (bits % 2147483648) as i128;
    if bits >= 2147483648 {
        -1 - magnitude
    } else {
        magnitude
    }
}

/// Place of a number in the order of the reals, as an integer.
pub fn number_order_key(bits: u32) -> (key: i128)
    ensures
        key == number_key(bits),
{
    let magnitude: i128 = (bits % 2147483648) as i128;
    if bits >= 2147483648 {
        -magnitude
    } else {
        magnitude
    }
}

/// Where an item with `key` goes among the first `n` items: behind the last
/// one that does not rank below it.
pub open spec fn slot_for<T>(s: Seq<(i128, T)>, key: i128, n: int) -> int
    decreases n,
{
    if n <= 0 {
        0
    } else if s[n - 1].0 >= key {
        n
    } else {
        slot_for(s, key, n - 1)
    }
}

/// The items by key, from the highest to the lowest, equal ones in the order in
/// which they came.
pub open spec fn ranked<T>(s: Seq<(i128, T)>) -> Seq<(i128, T)>
    decreases s.len(),
{
    if s.len() == 0 {
        s
    } else {
        let before = ranked(s.drop_last());
        before.insert(slot_for(before, s.last().0, before.len() as int), s.last())
    }
}

/// Sorts by key, from the highest to the lowest. Equal ones keep their order.
pub fn rank_descending<T: Copy>(items: &[(i128, T)]) -> (sorted: Vec<(i128, T)>)
    ensures
        sorted@ == ranked(items@),
{
    let mut sorted: Vec<(i128, T)> = Vec::new();
    let mut i: usize = 0;
    proof {
        assert(items@.take(0) =~= Seq::<(i128, T)>::empty());
        assert(sorted@ =~= ranked(items@.take(0)));
    }
    while i < items.len()
        invariant
            i <= items@.len(),
            sorted@ == ranked(items@.take(i as int)),
            sorted@.len() == i,
        decreases items@.len() - i,
    {
        let item: (i128, T) = items[i];
        let mut at: usize = sorted.len();
        while at > 0 && sorted[at - 1].0 < item.0
            invariant
                at <= sorted@.len(),
                slot_for(sorted@, item.0, sorted@.len() as int) == slot_for(
                    sorted@,
                    item.0,
                    at as int,
                ),
            decreases at,
        {
            at -= 1;
        }
        proof {
            assert(items@.take(i + 1).drop_last() =~= items@.take(i as int));
            assert(items@.take(i + 1).last() == items@[i as int]);
        }
        sorted.insert(at, item);
        i += 1;
    }
    proof {
        assert(items@.take(i as int) =~= items@);
    }
    sorted
}

/// Keys do not rise.
pub open spec fn falling<T>(s: Seq<(i128, T)>) -> bool {
    forall|i: int, j: int| 0 <= i <= j < s.len() ==> #[trigger] s[i].0 >= #[trigger] s[j].0
}

proof fn lemma_slot<T>(s: Seq<(i128, T)>, key: i128, n: int)
    requires
        0 <= n <= s.len(),
        falling(s),
        forall|i: int| n <= i < s.len() ==> (#[trigger] s[i]).0 < key,
    ensures
        0 <= slot_for(s, key, n) <= n,
        forall|i: int| 0 <= i < slot_for(s, key, n) ==> (#[trigger] s[i]).0 >= key,
        forall|i: int| slot_for(s, key, n) <= i < s.len() ==> (#[trigger] s[i]).0 < key,
    decreases n,
{
    if n > 0 && s[n - 1].0 < key {
        lemma_slot(s, key, n - 1);
    }
}

/// Sorting gives the same items, and their keys do not rise.
pub proof fn law_ranked_sorts<T>(s: Seq<(i128, T)>)
    ensures
        falling(ranked(s)),
        ranked(s).len() == s.len(),
        ranked(s).to_multiset() == s.to_multiset(),
    decreases s.len(),
{
    if s.len() > 0 {
        let rest = s.drop_last();
        law_ranked_sorts(rest);
        let before = ranked(rest);
        let at = slot_for(before, s.last().0, before.len() as int);
        lemma_slot(before, s.last().0, before.len() as int);
        let next = before.insert(at, s.last());
        assert forall|i: int, j: int| 0 <= i <= j < next.len() implies #[trigger] next[i].0
            >= #[trigger] next[j].0 by {
            let a = if i < at {
                i
            } else {
                i - 1
            };
            let b = if j < at {
                j
            } else {
                j - 1
            };
            if i != at && j != at {
                assert(next[i] == before[a]);
                assert(next[j] == before[b]);
            } else if i != at {
                assert(next[i] == before[a]);
            } else if j != at {
                assert(next[j] == before[b]);
            }
        }
        vstd::seq_lib::to_multiset_insert(before, at, s.last());
        vstd::seq_lib::to_multiset_build(rest, s.last());
        assert(rest.push(s.last()) =~= s);
    }
}

/// Sorting keeps the items: it adds and drops none, and makes none a double.
pub proof fn law_ranked_keeps_items<T>(s: Seq<(i128, T)>)
    ensures
        forall|item: (i128, T)| #[trigger] ranked(s).contains(item) == s.contains(item),
        s.no_duplicates() ==> ranked(s).no_duplicates(),
{
    broadcast use vstd::seq_lib::group_to_multiset_ensures;

    law_ranked_sorts(s);
    assert forall|item: (i128, T)| #[trigger] ranked(s).contains(item) == s.contains(item) by {
        assert(ranked(s).contains(item) == (ranked(s).to_multiset().count(item) > 0));
        assert(s.contains(item) == (s.to_multiset().count(item) > 0));
    }
    if s.no_duplicates() {
        s.lemma_multiset_has_no_duplicates();
        ranked(s).lemma_multiset_has_no_duplicates_conv();
    }
}

/// Accepts the items with `key`.
pub open spec fn with_key<T>(key: i128) -> spec_fn((i128, T)) -> bool {
    |item: (i128, T)| item.0 == key
}

proof fn lemma_nothing_left<T>(s: Seq<(i128, T)>, key: i128)
    requires
        forall|i: int| 0 <= i < s.len() ==> (#[trigger] s[i]).0 != key,
    ensures
        s.filter(with_key(key)) == Seq::<(i128, T)>::empty(),
    decreases s.len(),
{
    reveal(Seq::filter);
    if s.len() > 0 {
        assert(s.last() == s[s.len() - 1]);
        assert forall|i: int| 0 <= i < s.drop_last().len() implies (
        #[trigger] s.drop_last()[i]).0 != key by {
            assert(s.drop_last()[i] == s[i]);
        }
        lemma_nothing_left(s.drop_last(), key);
    }
}

/// Sorting is stable: items with the same key keep their order.
pub proof fn law_ranked_is_stable<T>(s: Seq<(i128, T)>, key: i128)
    ensures
        ranked(s).filter(with_key(key)) == s.filter(with_key(key)),
    decreases s.len(),
{
    reveal(Seq::filter);
    if s.len() > 0 {
        let rest = s.drop_last();
        let last = s.last();
        law_ranked_is_stable(rest, key);
        law_ranked_sorts(rest);
        let before = ranked(rest);
        let at = slot_for(before, last.0, before.len() as int);
        lemma_slot(before, last.0, before.len() as int);
        let head = before.take(at);
        let tail = before.skip(at);
        let one = seq![last];
        assert(before.insert(at, last) =~= (head + one) + tail);
        assert(before =~= head + tail);
        Seq::filter_distributes_over_add(head + one, tail, with_key(key));
        Seq::filter_distributes_over_add(head, one, with_key(key));
        Seq::filter_distributes_over_add(head, tail, with_key(key));
        assert(one.drop_last() =~= Seq::<(i128, T)>::empty());
        assert(one.last() == last);
        assert(Seq::<(i128, T)>::empty().filter(with_key(key)) =~= Seq::<(i128, T)>::empty());
        if last.0 == key {
            assert forall|i: int| 0 <= i < tail.len() implies (#[trigger] tail[i]).0 != key by {
                assert(tail[i] == before[at + i]);
            }
            lemma_nothing_left(tail, key);
            assert(one.filter(with_key(key)) =~= one);
            assert((head + one).filter(with_key(key)) + tail.filter(with_key(key))
                =~= before.filter(with_key(key)).push(last));
        } else {
            assert(one.filter(with_key(key)) =~= Seq::<(i128, T)>::empty());
            assert((head + one).filter(with_key(key)) + tail.filter(with_key(key))
                =~= before.filter(with_key(key)));
        }
    }
}

/// What is cut off from a ranking does not rank above what is kept.
pub proof fn law_cut_keeps_highest<T>(s: Seq<(i128, T)>, kept: int, left: int, count: int)
    requires
        0 <= kept < count <= left < s.len(),
    ensures
        ranked(s)[kept].0 >= ranked(s)[left].0,
{
    law_ranked_sorts(s);
}

/// The first of the lowest entries among the first `n`.
pub open spec fn lowest<T>(best: Seq<(T, u32)>, n: int) -> int
    decreases n,
{
    if n <= 1 {
        0
    } else {
        let before = lowest(best, n - 1);
        if total_key(best[n - 1].1) < total_key(best[before].1) {
            n - 1
        } else {
            before
        }
    }
}

/// The best `top_k` once one more is offered: it fills a free place, or takes
/// the place of the lowest where it is greater.
pub open spec fn offered<T>(best: Seq<(T, u32)>, top_k: int, item: T, bits: u32) -> Seq<(T, u32)> {
    let worst = lowest(best, best.len() as int);
    if best.len() < top_k {
        best.push((item, bits))
    } else if best.len() > 0 && greater(bits, best[worst].1) {
        best.update(worst, (item, bits))
    } else {
        best
    }
}

/// The best `top_k` of all that were offered, in this order.
pub open spec fn best_of<T>(all: Seq<(T, u32)>, top_k: int) -> Seq<(T, u32)>
    decreases all.len(),
{
    if all.len() == 0 {
        all
    } else {
        offered(best_of(all.drop_last(), top_k), top_k, all.last().0, all.last().1)
    }
}

/// Offers one more score to the best `top_k`.
pub fn push_topk_candidate<T: Copy>(
    best: &mut Vec<(T, u32)>,
    top_k: usize,
    item: T,
    bits: u32,
)
    ensures
        final(best)@ == offered(old(best)@, top_k as int, item, bits),
{
    if best.len() < top_k {
        best.push((item, bits));
        return;
    }
    if best.len() == 0 {
        return;
    }
    let mut worst: usize = 0;
    let mut i: usize = 1;
    while i < best.len()
        invariant
            1 <= i <= best@.len(),
            worst < i,
            best@ == old(best)@,
            worst == lowest(best@, i as int),
        decreases best@.len() - i,
    {
        if total_above(best[worst].1, best[i].1) {
            worst = i;
        }
        i += 1;
    }
    if bits_greater(bits, best[worst].1) {
        best.set(worst, (item, bits));
    }
}

proof fn lemma_lowest<T>(best: Seq<(T, u32)>, n: int)
    requires
        1 <= n <= best.len(),
    ensures
        0 <= lowest(best, n) < n,
        forall|i: int|
            0 <= i < n ==> total_key(best[lowest(best, n)].1) <= total_key(
                (#[trigger] best[i]).1,
            ),
    decreases n,
{
    if n > 1 {
        lemma_lowest(best, n - 1);
    }
}

/// Of the scores that were offered, all numbers, the best are kept: as many as
/// there is room for, and none that was dropped is greater than one that was
/// kept.
pub proof fn law_best_are_largest<T>(all: Seq<(T, u32)>, top_k: int)
    requires
        top_k >= 1,
        forall|i: int| 0 <= i < all.len() ==> !is_nan((#[trigger] all[i]).1),
    ensures
        best_of(all, top_k).len() == if all.len() < top_k {
            all.len() as int
        } else {
            top_k
        },
        forall|j: int|
            0 <= j < best_of(all, top_k).len() ==> all.contains(#[trigger] best_of(all, top_k)[j]),
        forall|i: int, j: int|
            0 <= i < all.len() && 0 <= j < best_of(all, top_k).len() && !best_of(
                all,
                top_k,
            ).contains(#[trigger] all[i]) ==> number_key((#[trigger] best_of(all, top_k)[j]).1)
                >= number_key(all[i].1),
    decreases all.len(),
{
    if all.len() > 0 {
        let rest = all.drop_last();
        let last = all.last();
        assert forall|i: int| 0 <= i < rest.len() implies !is_nan((#[trigger] rest[i]).1) by {
            assert(rest[i] == all[i]);
        }
        law_best_are_largest(rest, top_k);
        let before = best_of(rest, top_k);
        let after = best_of(all, top_k);
        assert(last == all[all.len() - 1]);
        if before.len() > 0 {
            lemma_lowest(before, before.len() as int);
        }
        let worst = lowest(before, before.len() as int);
        assert forall|j: int| 0 <= j < before.len() implies all.contains(
            #[trigger] before[j],
        ) by {
            let k = choose|k: int| 0 <= k < rest.len() && rest[k] == before[j];
            assert(all[k] == before[j]);
        }
        assert forall|j: int| 0 <= j < before.len() implies !is_nan((#[trigger] before[j]).1) by {
            let k = choose|k: int| 0 <= k < rest.len() && rest[k] == before[j];
            assert(rest[k] == before[j]);
        }
        assert forall|j: int| 0 <= j < after.len() implies all.contains(#[trigger] after[j]) by {
            if j < before.len() && after[j] == before[j] {
                assert(all.contains(before[j]));
            } else {
                assert(after[j] == last);
            }
        }
        if before.len() < top_k {
            assert(after =~= before.push(last));
            assert forall|i: int, j: int|
                0 <= i < all.len() && 0 <= j < after.len() && !after.contains(
                    #[trigger] all[i],
                ) implies number_key((#[trigger] after[j]).1) >= number_key(all[i].1) by {
                assert(after[before.len() as int] == last);
                assert(i < rest.len());
                assert(rest[i] == all[i]);
                if before.contains(rest[i]) {
                    let k = choose|k: int| 0 <= k < before.len() && before[k] == rest[i];
                    assert(after[k] == rest[i]);
                }
                lemma_all_kept(rest, top_k, i);
            }
        } else if greater(last.1, before[worst].1) {
            assert(after =~= before.update(worst, last));
            assert forall|i: int, j: int|
                0 <= i < all.len() && 0 <= j < after.len() && !after.contains(
                    #[trigger] all[i],
                ) implies number_key((#[trigger] after[j]).1) >= number_key(all[i].1) by {
                assert(after[worst] == last);
                assert(i < rest.len());
                assert(rest[i] == all[i]);
                if before.contains(rest[i]) {
                    let k = choose|k: int| 0 <= k < before.len() && before[k] == rest[i];
                    if k != worst {
                        assert(after[k] == before[k]);
                    }
                    assert(all[i] == before[worst]);
                }
                assert(total_key(before[worst].1) <= total_key(before[j].1));
                lemma_total_to_number(before[worst].1, before[j].1);
                assert(number_key(before[worst].1) >= number_key(all[i].1));
            }
        } else {
            assert(after == before);
            assert forall|i: int, j: int|
                0 <= i < all.len() && 0 <= j < after.len() && !after.contains(
                    #[trigger] all[i],
                ) implies number_key((#[trigger] after[j]).1) >= number_key(all[i].1) by {
                assert(total_key(before[worst].1) <= total_key(before[j].1));
                lemma_total_to_number(before[worst].1, before[j].1);
                if i < rest.len() {
                    assert(rest[i] == all[i]);
                }
            }
        }
    }
}

proof fn lemma_total_to_number(a: u32, b: u32)
    requires
        total_key(a) <= total_key(b),
    ensures
        number_key(a) <= number_key(b),
{
}

/// While there is room, nothing is dropped.
proof fn lemma_all_kept<T>(all: Seq<(T, u32)>, top_k: int, i: int)
    requires
        0 <= i < all.len(),
        best_of(all, top_k).len() < top_k,
    ensures
        best_of(all, top_k).contains(all[i]),
    decreases all.len(),
{
    let rest = all.drop_last();
    let before = best_of(rest, top_k);
    let after = best_of(all, top_k);
    if before.len() > 0 {
        lemma_lowest(before, before.len() as int);
    }
    assert(before.len() < top_k);
    assert(after == before.push(all.last()));
    if i == all.len() - 1 {
        assert(after[before.len() as int] == all[i]);
    } else {
        lemma_all_kept(rest, top_k, i);
        assert(rest[i] == all[i]);
        let k = choose|k: int| 0 <= k < before.len() && before[k] == rest[i];
        assert(after[k] == all[i]);
    }
}

/// A ranking is an arrangement of the items: each stands in it once, by
/// `places`, those with a higher key come first, and of two with the same key
/// the earlier one.
pub proof fn law_ranking_arranges<T>(s: Seq<(i128, T)>) -> (places: Seq<int>)
    ensures
        places.len() == s.len() == ranked(s).len(),
        forall|i: int| 0 <= i < s.len() ==> 0 <= #[trigger] places[i] < s.len(),
        forall|i: int| 0 <= i < s.len() ==> #[trigger] ranked(s)[i] == s[places[i]],
        forall|i: int, j: int|
            0 <= i < j < s.len() ==> {
                let first = #[trigger] places[i];
                let second = #[trigger] places[j];
                &&& first != second
                &&& s[first].0 > s[second].0 || (s[first].0 == s[second].0 && first < second)
            },
        forall|c: int| 0 <= c < s.len() ==> #[trigger] places.contains(c),
    decreases s.len(),
{
    if s.len() == 0 {
        Seq::empty()
    } else {
        let rest = s.drop_last();
        let count = rest.len() as int;
        let old_places = law_ranking_arranges(rest);
        let before = ranked(rest);
        law_ranked_sorts(rest);
        let at = slot_for(before, s.last().0, before.len() as int);
        lemma_slot(before, s.last().0, before.len() as int);
        let places = old_places.insert(at, count);
        let next = before.insert(at, s.last());
        assert(next == ranked(s));
        assert forall|i: int| 0 <= i < s.len() implies 0 <= #[trigger] places[i] < s.len() by {
            if i != at {
                assert(places[i] == old_places[if i < at { i } else { i - 1 }]);
            }
        }
        assert forall|i: int| 0 <= i < s.len() implies #[trigger] ranked(s)[i] == s[places[i]] by {
            if i != at {
                let k = if i < at {
                    i
                } else {
                    i - 1
                };
                assert(places[i] == old_places[k]);
                assert(next[i] == before[k]);
                assert(before[k] == rest[old_places[k]]);
            }
        }
        assert forall|i: int, j: int| 0 <= i < j < s.len() implies ({
            let first = #[trigger] places[i];
            let second = #[trigger] places[j];
            &&& first != second
            &&& s[first].0 > s[second].0 || (s[first].0 == s[second].0 && first < second)
        }) by {
            let k = if i < at {
                i
            } else {
                i - 1
            };
            let l = if j < at {
                j
            } else {
                j - 1
            };
            if i == at {
                assert(places[j] == old_places[l]);
                assert(before[l] == rest[old_places[l]]);
            } else if j == at {
                assert(places[i] == old_places[k]);
                assert(before[k] == rest[old_places[k]]);
            } else {
                assert(places[i] == old_places[k]);
                assert(places[j] == old_places[l]);
            }
        }
        assert forall|c: int| 0 <= c < s.len() implies #[trigger] places.contains(c) by {
            if c == count {
                assert(places[at] == c);
            } else {
                assert(old_places.contains(c));
                let k = choose|k: int| 0 <= k < old_places.len() && old_places[k] == c;
                if k < at {
                    assert(places[k] == c);
                } else {
                    assert(places[k + 1] == c);
                }
            }
        }
        places
    }
}

/// What `rank_descending` returns: each item once, by `places`, from the highest key
/// down, those with the same key as they were.
pub proof fn law_rank_descending<T: Copy>(items: &[(i128, T)], sorted: Vec<(i128, T)>) -> (places:
    Seq<int>)
    requires
        call_ensures(rank_descending::<T>, (items,), sorted),
    ensures
        places.len() == items@.len() == sorted@.len(),
        forall|i: int| 0 <= i < items@.len() ==> 0 <= #[trigger] places[i] < items@.len(),
        forall|i: int| 0 <= i < items@.len() ==> #[trigger] sorted@[i] == items@[places[i]],
        forall|i: int, j: int|
            0 <= i < j < items@.len() ==> {
                let first = #[trigger] places[i];
                let second = #[trigger] places[j];
                &&& first != second
                &&& items@[first].0 > items@[second].0 || (items@[first].0 == items@[second].0
                    && first < second)
            },
{
    law_ranking_arranges(items@)
}

} // verus!
