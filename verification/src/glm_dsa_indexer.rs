//! Which positions of the context the attention of a GLM-DSA layer looks at.

use crate::floats::bits_greater;
use crate::order::rank_descending;
use crate::order::total_order_key;
use vstd::prelude::*;

verus! {

use crate::floats::{greater, is_nan, number_key, total_key};
use crate::order::{law_ranked_keeps_items, law_ranked_sorts, ranked};

pub const GLM52_INDEX_TOPK: usize = 2048;
pub const GLM52_INDEX_N_HEADS: usize = 32;
pub const GLM52_INDEX_HEAD_DIM: usize = 128;

/// Size of the indexer: its heads, their width, and how many positions it picks.
#[derive(Clone, Copy, Debug)]
pub struct IndexerConfig {
    pub n_heads: usize,
    pub head_dim: usize,
    pub top_k: usize,
}

impl Default for IndexerConfig {
    fn default() -> (config: Self)
        ensures
            config.n_heads == GLM52_INDEX_N_HEADS,
            config.head_dim == GLM52_INDEX_HEAD_DIM,
            config.top_k == GLM52_INDEX_TOPK,
    {
        IndexerConfig {
            n_heads: GLM52_INDEX_N_HEADS,
            head_dim: GLM52_INDEX_HEAD_DIM,
            top_k: GLM52_INDEX_TOPK,
        }
    }
}

/// Why no positions are picked.
#[derive(Clone, Copy, Debug, PartialEq, Eq)]
pub enum IndexerError {
    Shape(&'static str),
    EmptyContext,
}

/// How many positions are visible, and how many of them are kept.
#[derive(Clone, Copy, Debug, PartialEq, Eq, Structural)]
pub struct IndexerPlan {
    pub visible: usize,
    pub keep: usize,
}

impl IndexerPlan {
    /// Some position is visible, and no more are kept than are visible.
    pub open spec fn wf(self) -> bool {
        0 < self.keep <= self.visible
    }
}

/// What the indexer looks at: `context_len` keys, of which the first
/// `causal_len` are visible.
pub open spec fn indexer_plan(
    query_len: int,
    key_len: int,
    weights_len: int,
    context_len: usize,
    causal_len: usize,
    config: IndexerConfig,
) -> Result<IndexerPlan, IndexerError> {
    if context_len == 0 || causal_len == 0 {
        Err(IndexerError::EmptyContext)
    } else if config.n_heads == 0 || config.head_dim == 0 || config.top_k == 0 {
        Err(IndexerError::Shape("config values must be positive"))
    } else if query_len < config.n_heads * config.head_dim {
        Err(IndexerError::Shape("query_heads too small"))
    } else if key_len < context_len * config.head_dim {
        Err(IndexerError::Shape("key_cache too small"))
    } else if weights_len < config.n_heads {
        Err(IndexerError::Shape("head_weights too small"))
    } else {
        let visible = if context_len < causal_len {
            context_len
        } else {
            causal_len
        };
        Ok(
            IndexerPlan {
                visible,
                keep: if visible < config.top_k {
                    visible
                } else {
                    config.top_k
                },
            },
        )
    }
}

fn holds(len: usize, rows: usize, width: usize) -> (enough: bool)
    ensures
        enough == (len >= rows * width),
{
    match rows.checked_mul(width) {
        Some(needed) => len >= needed,
        None => false,
    }
}

/// Checks what the indexer gets, and says how many positions it picks.
pub fn plan_topk_positions(
    query_len: usize,
    key_len: usize,
    weights_len: usize,
    context_len: usize,
    causal_len: usize,
    config: IndexerConfig,
) -> (result: Result<IndexerPlan, IndexerError>)
    ensures
        result == indexer_plan(
            query_len as int,
            key_len as int,
            weights_len as int,
            context_len,
            causal_len,
            config,
        ),
        result matches Ok(plan) ==> plan.wf(),
{
    if context_len == 0 || causal_len == 0 {
        return Err(IndexerError::EmptyContext);
    }
    if config.n_heads == 0 || config.head_dim == 0 || config.top_k == 0 {
        return Err(IndexerError::Shape("config values must be positive"));
    }
    if !holds(query_len, config.n_heads, config.head_dim) {
        return Err(IndexerError::Shape("query_heads too small"));
    }
    if !holds(key_len, context_len, config.head_dim) {
        return Err(IndexerError::Shape("key_cache too small"));
    }
    if weights_len < config.n_heads {
        return Err(IndexerError::Shape("head_weights too small"));
    }
    let visible: usize = if context_len < causal_len {
        context_len
    } else {
        causal_len
    };
    let keep: usize = if visible < config.top_k {
        visible
    } else {
        config.top_k
    };
    Ok(IndexerPlan { visible, keep })
}

/// Where a position ranks: by its score, and before later positions of the same
/// score.
pub open spec fn rank(entry: (usize, u32)) -> int {
    total_key(entry.1) * 0x1_0000_0000_0000_0000 - entry.0
}

fn rank_key(entry: (usize, u32)) -> (key: i128)
    ensures
        key == rank(entry),
{
    total_order_key(entry.1) * 0x1_0000_0000_0000_0000 - entry.0 as i128
}

/// The first `n` entries' lowest.
pub open spec fn lowest_ranked(best: Seq<(usize, u32)>, n: int) -> int
    decreases n,
{
    if n <= 1 {
        0
    } else {
        let before = lowest_ranked(best, n - 1);
        if rank(best[n - 1]) < rank(best[before]) {
            n - 1
        } else {
            before
        }
    }
}

/// The best `keep` once position `pos` is offered.
pub open spec fn placed(best: Seq<(usize, u32)>, keep: int, pos: usize, bits: u32) -> Seq<
    (usize, u32),
> {
    let worst = lowest_ranked(best, best.len() as int);
    if best.len() < keep {
        best.push((pos, bits))
    } else if best.len() > 0 && greater(bits, best[worst].1) {
        best.update(worst, (pos, bits))
    } else {
        best
    }
}

/// The best `keep` of the first `n` positions.
pub open spec fn best_positions(scores: Seq<u32>, keep: int, n: int) -> Seq<(usize, u32)>
    decreases n,
{
    if n <= 0 {
        Seq::empty()
    } else {
        placed(best_positions(scores, keep, n - 1), keep, (n - 1) as usize, scores[n - 1])
    }
}

/// Positions with their ranks.
pub open spec fn ranks(best: Seq<(usize, u32)>) -> Seq<(i128, usize)> {
    best.map_values(|entry: (usize, u32)| (rank(entry) as i128, entry.0))
}

/// The positions of ranked entries.
pub open spec fn positions_of(sorted: Seq<(i128, usize)>) -> Seq<usize> {
    sorted.map_values(|entry: (i128, usize)| entry.1)
}

/// The positions that are picked: where all are kept, all that are visible;
/// otherwise the best by their scores, from the highest to the lowest.
pub open spec fn picked(plan: IndexerPlan, scores: Seq<u32>) -> Seq<usize> {
    if plan.keep == plan.visible {
        Seq::new(plan.visible as nat, |i: int| i as usize)
    } else {
        positions_of(ranked(ranks(best_positions(scores, plan.keep as int, plan.visible as int))))
    }
}

/// Offers a position to the best `keep`.
pub fn push_topk(best: &mut Vec<(usize, u32)>, keep: usize, pos: usize, score_bits: u32)
    ensures
        final(best)@ == placed(old(best)@, keep as int, pos, score_bits),
{
    if best.len() < keep {
        best.push((pos, score_bits));
        return;
    }
    if best.len() == 0 {
        return;
    }
    let mut worst: usize = 0;
    let mut i: usize = 1;
    while i < best.len()
        invariant
            1 <= i <= best@.len(),
            worst < i,
            best@ == old(best)@,
            worst == lowest_ranked(best@, i as int),
        decreases best@.len() - i,
    {
        if rank_key(best[i]) < rank_key(best[worst]) {
            worst = i;
        }
        i += 1;
    }
    if bits_greater(score_bits, best[worst].1) {
        best.set(worst, (pos, score_bits));
    }
}

/// The positions that are picked. The scores are those of the visible positions,
/// and are not looked at where all positions are kept.
pub fn select_topk_positions(plan: IndexerPlan, scores: &[u32]) -> (positions: Vec<usize>)
    requires
        plan.wf(),
        plan.keep < plan.visible ==> scores@.len() == plan.visible,
    ensures
        positions@ == picked(plan, scores@),
{
    let mut positions: Vec<usize> = Vec::new();
    if plan.keep == plan.visible {
        let mut i: usize = 0;
        while i < plan.visible
            invariant
                i <= plan.visible,
                positions@ == Seq::new(i as nat, |i: int| i as usize),
            decreases plan.visible - i,
        {
            positions.push(i);
            proof {
                assert(positions@ =~= Seq::new((i + 1) as nat, |i: int| i as usize));
            }
            i += 1;
        }
        return positions;
    }
    let mut best: Vec<(usize, u32)> = Vec::new();
    let mut pos: usize = 0;
    while pos < plan.visible
        invariant
            pos <= plan.visible,
            scores@.len() == plan.visible,
            best@ == best_positions(scores@, plan.keep as int, pos as int),
        decreases plan.visible - pos,
    {
        push_topk(&mut best, plan.keep, pos, scores[pos]);
        pos += 1;
    }
    let mut keys: Vec<(i128, usize)> = Vec::new();
    let mut i: usize = 0;
    while i < best.len()
        invariant
            i <= best@.len(),
            keys@ == ranks(best@.take(i as int)),
        decreases best@.len() - i,
    {
        let entry: (usize, u32) = best[i];
        let key: i128 = rank_key(entry);
        keys.push((key, entry.0));
        proof {
            assert(keys@ =~= ranks(best@.take(i + 1)));
        }
        i += 1;
    }
    proof {
        assert(best@.take(i as int) =~= best@);
    }
    let sorted: Vec<(i128, usize)> = rank_descending(&keys);
    let mut j: usize = 0;
    while j < sorted.len()
        invariant
            j <= sorted@.len(),
            positions@ == positions_of(sorted@.take(j as int)),
        decreases sorted@.len() - j,
    {
        positions.push(sorted[j].1);
        proof {
            assert(positions@ =~= positions_of(sorted@.take(j + 1)));
        }
        j += 1;
    }
    proof {
        assert(sorted@.take(j as int) =~= sorted@);
    }
    positions
}

/// A layer that shares the indexer of another looks at the same positions.
pub fn reuse_shared_indexer_positions(previous_full_layer: &[usize]) -> (positions: Vec<usize>)
    ensures
        positions@ == previous_full_layer@,
{
    let mut positions: Vec<usize> = Vec::new();
    let mut i: usize = 0;
    while i < previous_full_layer.len()
        invariant
            i <= previous_full_layer@.len(),
            positions@ == previous_full_layer@.take(i as int),
        decreases previous_full_layer@.len() - i,
    {
        positions.push(previous_full_layer[i]);
        proof {
            assert(positions@ =~= previous_full_layer@.take(i + 1));
        }
        i += 1;
    }
    proof {
        assert(positions@ =~= previous_full_layer@);
    }
    positions
}

/// A context that is no longer than what is kept is looked at as a whole.
pub proof fn law_short_context_is_kept_whole(plan: IndexerPlan, scores: Seq<u32>)
    requires
        plan.wf(),
        plan.keep == plan.visible,
    ensures
        picked(plan, scores).len() == plan.visible,
        forall|i: int| 0 <= i < plan.visible ==> #[trigger] picked(plan, scores)[i] == i,
{
}

proof fn lemma_lowest(best: Seq<(usize, u32)>, n: int)
    requires
        1 <= n <= best.len(),
    ensures
        0 <= lowest_ranked(best, n) < n,
        forall|i: int|
            0 <= i < n ==> rank(best[lowest_ranked(best, n)]) <= rank(#[trigger] best[i]),
    decreases n,
{
    if n > 1 {
        lemma_lowest(best, n - 1);
    }
}

/// What the best of the first `n` positions are: positions among them with their
/// scores, none twice.
spec fn sound(best: Seq<(usize, u32)>, scores: Seq<u32>, n: int) -> bool {
    &&& forall|i: int|
        0 <= i < best.len() ==> (#[trigger] best[i]).0 < n && best[i].1 == scores[best[i].0 as int]
    &&& forall|i: int, j: int|
        0 <= i < j < best.len() ==> (#[trigger] best[i]).0 != (#[trigger] best[j]).0
}

proof fn lemma_best(scores: Seq<u32>, keep: int, n: int)
    requires
        0 <= n <= scores.len() <= usize::MAX,
        keep >= 1,
    ensures
        sound(best_positions(scores, keep, n), scores, n),
        best_positions(scores, keep, n).len() == if n < keep {
            n
        } else {
            keep
        },
    decreases n,
{
    if n > 0 {
        lemma_best(scores, keep, n - 1);
        let before = best_positions(scores, keep, n - 1);
        if before.len() > 0 {
            lemma_lowest(before, before.len() as int);
        }
    }
}

/// A position is among entries.
pub open spec fn holds_position(best: Seq<(usize, u32)>, pos: int) -> bool {
    exists|i: int| 0 <= i < best.len() && (#[trigger] best[i]).0 == pos
}

proof fn lemma_best_are_best(scores: Seq<u32>, keep: int, n: int, left: int, i: int)
    requires
        0 <= n <= scores.len() <= usize::MAX,
        keep >= 1,
        forall|k: int| 0 <= k < n ==> !is_nan(#[trigger] scores[k]),
        0 <= left < n,
        !holds_position(best_positions(scores, keep, n), left),
        0 <= i < best_positions(scores, keep, n).len(),
    ensures
        number_key(best_positions(scores, keep, n)[i].1) >= number_key(scores[left]),
    decreases n,
{
    let before = best_positions(scores, keep, n - 1);
    let after = best_positions(scores, keep, n);
    lemma_best(scores, keep, n - 1);
    lemma_best(scores, keep, n);
    if before.len() < keep {
        assert(after[before.len() as int].0 == n - 1);
        if holds_position(before, left) {
            let k = choose|k: int| 0 <= k < before.len() && (#[trigger] before[k]).0 == left;
            assert(after[k].0 == left);
        }
        lemma_all_there(scores, keep, n - 1, left);
        assert(false);
    } else {
        let worst = lowest_ranked(before, before.len() as int);
        lemma_lowest(before, before.len() as int);
        let replaced = greater(scores[n - 1], before[worst].1);
        if left == n - 1 {
            if replaced {
                assert(after[worst].0 == left);
            }
            lemma_ranks(before[worst], before[i]);
        } else if holds_position(before, left) {
            let k = choose|k: int| 0 <= k < before.len() && (#[trigger] before[k]).0 == left;
            if k != worst || !replaced {
                assert(after[k].0 == left);
            }
            assert(before[k].1 == scores[left]);
            if i != worst {
                lemma_ranks(before[worst], before[i]);
            }
        } else {
            lemma_best_are_best(scores, keep, n - 1, left, worst);
            if i != worst {
                lemma_best_are_best(scores, keep, n - 1, left, i);
            }
        }
    }
}

proof fn lemma_all_there(scores: Seq<u32>, keep: int, n: int, pos: int)
    requires
        0 <= n <= scores.len() <= usize::MAX,
        best_positions(scores, keep, n).len() < keep,
        keep >= 1,
        0 <= pos < n,
    ensures
        holds_position(best_positions(scores, keep, n), pos),
    decreases n,
{
    lemma_best(scores, keep, n);
    lemma_best(scores, keep, n - 1);
    let before = best_positions(scores, keep, n - 1);
    let after = best_positions(scores, keep, n);
    if pos == n - 1 {
        assert(after[before.len() as int].0 == pos);
    } else {
        lemma_all_there(scores, keep, n - 1, pos);
        let k = choose|k: int| 0 <= k < before.len() && (#[trigger] before[k]).0 == pos;
        assert(after[k].0 == pos);
    }
}

proof fn lemma_ranks(low: (usize, u32), high: (usize, u32))
    requires
        rank(low) <= rank(high),
    ensures
        total_key(low.1) <= total_key(high.1),
        !is_nan(low.1) && !is_nan(high.1) ==> number_key(low.1) <= number_key(high.1),
{
    crate::floats::law_total_order_refines_numbers(low.1, high.1);
}

/// Of a long context, as many positions are picked as are kept: visible ones,
/// none twice.
pub proof fn law_picked_are_visible(plan: IndexerPlan, scores: Seq<u32>)
    requires
        plan.wf(),
        plan.keep < plan.visible,
        scores.len() == plan.visible,
    ensures
        picked(plan, scores).len() == plan.keep,
        forall|i: int| 0 <= i < plan.keep ==> #[trigger] picked(plan, scores)[i] < plan.visible,
        forall|i: int, j: int|
            0 <= i < j < plan.keep ==> #[trigger] picked(plan, scores)[i] != #[trigger] picked(
                plan,
                scores,
            )[j],
{
    let best = best_positions(scores, plan.keep as int, plan.visible as int);
    lemma_best(scores, plan.keep as int, plan.visible as int);
    let keys = ranks(best);
    let sorted = ranked(keys);
    law_ranked_sorts(keys);
    law_ranked_keeps_items(keys);
    assert forall|i: int| 0 <= i < plan.keep implies #[trigger] picked(plan, scores)[i]
        < plan.visible by {
        assert(sorted.contains(sorted[i]));
        let k = choose|k: int| 0 <= k < keys.len() && keys[k] == sorted[i];
        assert(best[k].0 < plan.visible);
    }
    assert(keys.no_duplicates()) by {
        assert forall|i: int, j: int| 0 <= i < j < keys.len() implies keys[i] != keys[j] by {
            assert(best[i].0 != best[j].0);
        }
    }
    assert forall|i: int, j: int| 0 <= i < j < plan.keep implies #[trigger] picked(plan, scores)[i]
        != #[trigger] picked(plan, scores)[j] by {
        assert(sorted.contains(sorted[i]));
        assert(sorted.contains(sorted[j]));
        let a = choose|k: int| 0 <= k < keys.len() && keys[k] == sorted[i];
        let b = choose|k: int| 0 <= k < keys.len() && keys[k] == sorted[j];
        assert(sorted[i] != sorted[j]);
        assert(a != b);
        assert(best[a].0 != best[b].0);
    }
}

/// No position that is left out scores higher than one that is picked, as long
/// as all scores are numbers.
pub proof fn law_picked_score_highest(plan: IndexerPlan, scores: Seq<u32>, left: int, i: int)
    requires
        plan.wf(),
        plan.keep < plan.visible,
        scores.len() == plan.visible,
        forall|k: int| 0 <= k < scores.len() ==> !is_nan(#[trigger] scores[k]),
        0 <= left < plan.visible,
        !picked(plan, scores).contains(left as usize),
        0 <= i < plan.keep,
    ensures
        number_key(scores[picked(plan, scores)[i] as int]) >= number_key(scores[left]),
{
    let best = best_positions(scores, plan.keep as int, plan.visible as int);
    lemma_best(scores, plan.keep as int, plan.visible as int);
    let keys = ranks(best);
    let sorted = ranked(keys);
    law_ranked_sorts(keys);
    law_ranked_keeps_items(keys);
    assert(sorted.contains(sorted[i]));
    let k = choose|k: int| 0 <= k < keys.len() && keys[k] == sorted[i];
    assert(picked(plan, scores)[i] == best[k].0);
    assert(best[k].1 == scores[best[k].0 as int]);
    if holds_position(best, left) {
        let m = choose|m: int| 0 <= m < best.len() && (#[trigger] best[m]).0 == left;
        assert(keys.contains(keys[m]));
        assert(sorted.contains(keys[m]));
        let p = choose|p: int| 0 <= p < sorted.len() && sorted[p] == keys[m];
        assert(picked(plan, scores)[p] == left);
        assert(false);
    }
    lemma_best_are_best(scores, plan.keep as int, plan.visible as int, left, k);
}

/// An indexer that keeps as many positions as GLM does can be left out exactly
/// as long as the status of the bypass says that this changes nothing: up to
/// there all positions are picked, and behind it some are not.
pub proof fn law_bypass_is_equivalent_until_topk(
    query_len: int,
    key_len: int,
    weights_len: int,
    context_len: usize,
    config: IndexerConfig,
    scores: Seq<u32>,
)
    requires
        config.top_k == crate::compute::config::GLM52_INDEX_TOPK,
        indexer_plan(query_len, key_len, weights_len, context_len, context_len, config) is Ok,
        scores.len() == context_len,
    ensures
        ({
            let plan = indexer_plan(
                query_len,
                key_len,
                weights_len,
                context_len,
                context_len,
                config,
            )->Ok_0;
            (context_len <= crate::compute::config::GLM52_INDEX_TOPK) == (picked(plan, scores)
                == Seq::new(context_len as nat, |i: int| i as usize))
        }),
{
    let plan = indexer_plan(
        query_len,
        key_len,
        weights_len,
        context_len,
        context_len,
        config,
    )->Ok_0;
    if plan.keep < plan.visible {
        law_picked_are_visible(plan, scores);
    }
}

/// What is seen of a context ends with the position of the token, and what is kept
/// of it with the number of positions that are looked at.
pub proof fn law_plans_see_the_past(
    query_len: int,
    key_len: int,
    weights_len: int,
    context_len: usize,
    causal_len: usize,
    config: IndexerConfig,
)
    ensures
        indexer_plan(query_len, key_len, weights_len, context_len, causal_len, config) matches Ok(
            plan,
        ) ==> {
            &&& plan.visible <= context_len && plan.visible <= causal_len
            &&& plan.visible == context_len || plan.visible == causal_len
            &&& plan.keep <= plan.visible && plan.keep <= config.top_k
            &&& plan.keep == plan.visible || plan.keep == config.top_k
            &&& config.n_heads * config.head_dim <= query_len
            &&& context_len * config.head_dim <= key_len
            &&& config.n_heads <= weights_len
        },
{
}

/// Positions are picked from the highest score to the lowest; of two with the same
/// score the earlier one comes first.
pub proof fn law_picked_come_in_order(plan: IndexerPlan, scores: Seq<u32>, i: int, j: int)
    requires
        plan.wf(),
        plan.keep < plan.visible,
        scores.len() == plan.visible,
        0 <= i < j < plan.keep,
    ensures
        ({
            let first = picked(plan, scores)[i];
            let second = picked(plan, scores)[j];
            total_key(scores[first as int]) > total_key(scores[second as int]) || (total_key(
                scores[first as int],
            ) == total_key(scores[second as int]) && first < second)
        }),
{
    let best = best_positions(scores, plan.keep as int, plan.visible as int);
    lemma_best(scores, plan.keep as int, plan.visible as int);
    let keys = ranks(best);
    let places = crate::order::law_ranking_arranges(keys);
    let a = places[i];
    let b = places[j];
    assert(ranked(keys)[i] == keys[a] && ranked(keys)[j] == keys[b]);
    assert(best[a].0 != best[b].0) by {
        if a < b {
            assert(best[a].0 != best[b].0);
        } else {
            assert(best[b].0 != best[a].0);
        }
    }
    lemma_rank_in_range(best[a]);
    lemma_rank_in_range(best[b]);
    assert(keys[a].0 == rank(best[a]) && keys[b].0 == rank(best[b]));
    assert(rank(best[a]) >= rank(best[b]));
    assert(total_key(best[a].1) * 0x1_0000_0000_0000_0000 - best[a].0 >= total_key(best[b].1)
        * 0x1_0000_0000_0000_0000 - best[b].0);
}

proof fn lemma_rank_in_range(entry: (usize, u32))
    ensures
        i128::MIN <= rank(entry) <= i128::MAX,
        entry.0 < 0x1_0000_0000_0000_0000,
{
}

/// What `select_topk_positions` returns: as many positions as are kept, each once and
/// all of them visible; every visible one, in order, where all are kept, and
/// otherwise from the highest score down.
pub proof fn law_select_topk_positions(
    plan: IndexerPlan,
    scores: &[u32],
    positions: Vec<usize>,
    i: int,
    j: int,
)
    requires
        plan.wf(),
        plan.keep < plan.visible ==> scores@.len() == plan.visible,
        call_ensures(select_topk_positions, (plan, scores), positions),
        0 <= i < j < plan.keep,
    ensures
        positions@.len() == plan.keep,
        positions@[i] < plan.visible,
        positions@[i] != positions@[j],
        plan.keep == plan.visible ==> positions@[i] == i,
        plan.keep < plan.visible ==> total_key(scores@[positions@[i] as int]) >= total_key(
            scores@[positions@[j] as int],
        ),
{
    if plan.keep == plan.visible {
        law_short_context_is_kept_whole(plan, scores@);
    } else {
        law_picked_are_visible(plan, scores@);
        law_picked_come_in_order(plan, scores@, i, j);
    }
}

} // verus!
