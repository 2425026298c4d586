//! Routing: which experts a token goes to, and with which scores.

use crate::compute::config::{RouteOptions, RouterMath};
use crate::compute::error::ComputeError;
use crate::compute::gemv::{plan_gemv, GemvPlan};
use crate::compute::lookup::{
    router_gate_tensor, router_tid2eid_tensor, tensor_matrix_shape, MatrixShape,
};
use crate::compute::quant_block::{parse_quant_block, QuantBlockLayout};
use crate::compute::values::{router_bias_values, tid2eid_expert_ids};
use crate::floats::bits_greater;
use crate::order::{rank_descending, total_order_key};
use vstd::prelude::*;

verus! {

use crate::compute::config::smaller;
use crate::compute::error::{agrees, found_agrees};
use crate::compute::gemv::{gemv_in, GemvView};
use crate::compute::lookup::{is_tid2eid, matrix_shape, router_gate};
use crate::compute::quant_block::{parsed_block, BlockView, TensorView};
use crate::compute::values::{router_bias, tid2eid_ids};
use crate::floats::{greater, magnitude_bits, total_key};
use crate::order::{law_ranked_sorts, law_ranking_arranges, ranked};

/// An expert that a token goes to, with its score.
#[derive(Clone, Copy, Debug, PartialEq, Eq, Structural)]
pub struct ExpertRoute {
    pub expert_id: u32,
    pub score_bits: u32,
}

/// The product that gives the score of every expert.
#[derive(Clone, Copy, Debug)]
pub struct RouterPlan<'a> {
    pub product: GemvPlan<'a>,
    pub rows: usize,
    pub cols: usize,
}

/// The product that gives the scores, as contents.
pub struct RouterView {
    pub product: GemvView,
    pub rows: usize,
    pub cols: usize,
}

impl<'a> View for RouterPlan<'a> {
    type V = RouterView;

    open spec fn view(&self) -> RouterView {
        RouterView { product: self.product@, rows: self.rows, cols: self.cols }
    }
}

/// The router of a block, where it has one.
pub open spec fn router_in(b: BlockView, hidden_len: usize, scratch_len: int) -> Result<
    Option<RouterView>,
    ComputeError,
> {
    match router_gate(b, hidden_len) {
        Err(error) => Err(error),
        Ok(None) => Ok(None),
        Ok(Some(t)) => match matrix_shape(t) {
            Err(error) => Err(error),
            Ok(shape) => if hidden_len < shape.cols {
                Err(ComputeError::InvalidShape("router input too small"))
            } else if scratch_len < shape.rows {
                Err(
                    ComputeError::ScratchTooSmall {
                        required: shape.rows,
                        actual: scratch_len as usize,
                    },
                )
            } else {
                match gemv_in(b, t, shape.cols as int, shape.rows as int) {
                    Err(error) => Err(error),
                    Ok(plan) => Ok(
                        Some(RouterView { product: plan.0, rows: shape.rows, cols: shape.cols }),
                    ),
                }
            },
        },
    }
}

/// The router in the bytes of a dense block.
pub open spec fn router_of(dense: Seq<u8>, hidden_len: usize, scratch_len: int) -> Result<
    Option<RouterView>,
    ComputeError,
> {
    match parsed_block(dense) {
        Err(error) => Err(error),
        Ok(b) => router_in(b, hidden_len, scratch_len),
    }
}

/// Plans the scores of all experts. Without a router there are none.
pub fn plan_router<'a>(dense: &'a [u8], hidden_len: usize, scratch_len: usize) -> (result: Result<
    Option<RouterPlan<'a>>,
    ComputeError,
>)
    ensures
        found_agrees(result, router_of(dense@, hidden_len, scratch_len as int)),
        result matches Ok(Some(plan)) ==> plan@.product.wf(),
{
    let layout = parse_quant_block(dense)?;
    let router = match router_gate_tensor(&layout, hidden_len)? {
        Some(router) => router,
        None => return Ok(None),
    };
    let shape: MatrixShape = tensor_matrix_shape(router)?;
    if hidden_len < shape.cols {
        return Err(ComputeError::InvalidShape("router input too small"));
    }
    if scratch_len < shape.rows {
        return Err(ComputeError::ScratchTooSmall { required: shape.rows, actual: scratch_len });
    }
    let (product, _values): (GemvPlan<'a>, usize) = plan_gemv(
        &layout,
        router,
        shape.cols,
        shape.rows,
    )?;
    Ok(Some(RouterPlan { product, rows: shape.rows, cols: shape.cols }))
}

/// How routing starts.
#[derive(Clone, Copy, Debug)]
pub enum RouteStart<'a> {
    /// No expert is asked for, or none is there: no routes.
    Nothing,
    /// The block has no router.
    NoRouter,
    /// The scores are to be computed.
    Scores(RouterPlan<'a>),
}

/// How routing starts, as contents.
pub enum RouteStartView {
    Nothing,
    NoRouter,
    Scores(RouterView),
}

impl<'a> View for RouteStart<'a> {
    type V = RouteStartView;

    open spec fn view(&self) -> RouteStartView {
        match self {
            RouteStart::Nothing => RouteStartView::Nothing,
            RouteStart::NoRouter => RouteStartView::NoRouter,
            RouteStart::Scores(plan) => RouteStartView::Scores(plan@),
        }
    }
}

/// How routing to `wanted` experts starts, where `any` are there.
pub open spec fn route_start(
    dense: Seq<u8>,
    hidden_len: usize,
    scratch_len: int,
    wanted: int,
    any: bool,
) -> Result<RouteStartView, ComputeError> {
    if wanted == 0 || !any {
        Ok(RouteStartView::Nothing)
    } else {
        match router_of(dense, hidden_len, scratch_len) {
            Err(error) => Err(error),
            Ok(None) => Ok(RouteStartView::NoRouter),
            Ok(Some(plan)) => Ok(RouteStartView::Scores(plan)),
        }
    }
}

/// Plans the start of routing to `active_experts` of the available experts.
pub fn plan_route_experts<'a>(
    dense: &'a [u8],
    hidden_len: usize,
    active_experts: usize,
    available_experts: &[u32],
    scratch_len: usize,
) -> (result: Result<RouteStart<'a>, ComputeError>)
    ensures
        agrees(
            result,
            route_start(
                dense@,
                hidden_len,
                scratch_len as int,
                active_experts as int,
                available_experts@.len() > 0,
            ),
        ),
        result matches Ok(RouteStart::Scores(plan)) ==> plan@.product.wf(),
{
    if active_experts == 0 || available_experts.len() == 0 {
        return Ok(RouteStart::Nothing);
    }
    match plan_router(dense, hidden_len, scratch_len)? {
        Some(plan) => Ok(RouteStart::Scores(plan)),
        None => Ok(RouteStart::NoRouter),
    }
}

/// Plans the start of ranking all experts.
pub fn plan_router_top_experts<'a>(
    dense: &'a [u8],
    hidden_len: usize,
    top_k: usize,
    scratch_len: usize,
) -> (result: Result<RouteStart<'a>, ComputeError>)
    ensures
        agrees(
            result,
            route_start(dense@, hidden_len, scratch_len as int, top_k as int, true),
        ),
        result matches Ok(RouteStart::Scores(plan)) ==> plan@.product.wf(),
{
    if top_k == 0 {
        return Ok(RouteStart::Nothing);
    }
    match plan_router(dense, hidden_len, scratch_len)? {
        Some(plan) => Ok(RouteStart::Scores(plan)),
        None => Ok(RouteStart::NoRouter),
    }
}

/// By what the experts are chosen, once the scores are there.
pub enum RouteRule {
    /// By the static table: these experts, in this order.
    Hashed(Vec<u32>),
    /// By score, with a bias that counts only for the choice.
    Scored(Option<Vec<u32>>),
}

/// By what the experts are chosen, as contents.
pub enum RouteRuleView {
    Hashed(Seq<u32>),
    Scored(Option<Seq<u32>>),
}

impl View for RouteRule {
    type V = RouteRuleView;

    open spec fn view(&self) -> RouteRuleView {
        match self {
            RouteRule::Hashed(ids) => RouteRuleView::Hashed(ids@),
            RouteRule::Scored(bias) => RouteRuleView::Scored(
                match bias {
                    Some(values) => Some(values@),
                    None => None,
                },
            ),
        }
    }
}

/// The first static table of a block.
pub open spec fn tid2eid_in(b: BlockView) -> Result<Option<TensorView>, ComputeError> {
    b.first(|t: TensorView| is_tid2eid(t))
}

/// The rule by score.
pub open spec fn scored_rule(b: BlockView, rows: usize, options: RouteOptions) -> Result<
    RouteRuleView,
    ComputeError,
> {
    if options.math == RouterMath::DeepSeekV4SqrtSoftplus {
        match router_bias(b, rows) {
            Err(error) => Err(error),
            Ok(bias) => Ok(RouteRuleView::Scored(bias)),
        }
    } else {
        Ok(RouteRuleView::Scored(None))
    }
}

/// The rule of a block: its static table on layers that route by it.
pub open spec fn route_rule_in(b: BlockView, rows: usize, options: RouteOptions) -> Result<
    RouteRuleView,
    ComputeError,
> {
    match options.hash_token_id {
        None => scored_rule(b, rows, options),
        Some(token_id) => match tid2eid_in(b) {
            Err(error) => Err(error),
            Ok(None) => scored_rule(b, rows, options),
            Ok(Some(table)) => match tid2eid_ids(table, token_id) {
                Err(error) => Err(error),
                Ok(ids) => Ok(RouteRuleView::Hashed(ids)),
            },
        },
    }
}

/// The rule in the bytes of a dense block.
pub open spec fn route_rule(dense: Seq<u8>, rows: usize, options: RouteOptions) -> Result<
    RouteRuleView,
    ComputeError,
> {
    match parsed_block(dense) {
        Err(error) => Err(error),
        Ok(b) => route_rule_in(b, rows, options),
    }
}

fn plan_scored_rule(layout: &QuantBlockLayout<'_>, rows: usize, options: RouteOptions) -> (result:
    Result<RouteRule, ComputeError>)
    ensures
        agrees(result, scored_rule(layout@, rows, options)),
{
    if options.math == RouterMath::DeepSeekV4SqrtSoftplus {
        let bias = router_bias_values(layout, rows)?;
        return Ok(RouteRule::Scored(bias));
    }
    Ok(RouteRule::Scored(None))
}

/// Decides by what the experts are chosen.
pub fn plan_route_rule(dense: &[u8], rows: usize, options: RouteOptions) -> (result: Result<
    RouteRule,
    ComputeError,
>)
    ensures
        agrees(result, route_rule(dense@, rows, options)),
{
    let layout = parse_quant_block(dense)?;
    match options.hash_token_id {
        None => plan_scored_rule(&layout, rows, options),
        Some(token_id) => match router_tid2eid_tensor(&layout)? {
            None => plan_scored_rule(&layout, rows, options),
            Some(table) => {
                let ids = tid2eid_expert_ids(table, token_id)?;
                Ok(RouteRule::Hashed(ids))
            },
        },
    }
}

/// The routes to the first `n` of `ids`: those that are available and have a
/// score.
pub open spec fn hashed_upto(
    ids: Seq<u32>,
    available: Seq<u32>,
    scores: Seq<u32>,
    n: int,
) -> Seq<ExpertRoute>
    decreases n,
{
    if n <= 0 {
        seq![]
    } else {
        let before = hashed_upto(ids, available, scores, n - 1);
        let id = ids[n - 1];
        if available.contains(id) && id < scores.len() {
            before.push(ExpertRoute { expert_id: id, score_bits: scores[id as int] })
        } else {
            before
        }
    }
}

/// At most `count` of `routes`, from the front.
pub open spec fn cut(routes: Seq<ExpertRoute>, count: int) -> Seq<ExpertRoute> {
    routes.take(smaller(count, routes.len() as int))
}

fn contains_id(ids: &[u32], id: u32) -> (found: bool)
    ensures
        found == ids@.contains(id),
{
    let mut i: usize = 0;
    while i < ids.len()
        invariant
            i <= ids@.len(),
            forall|j: int| 0 <= j < i ==> ids@[j] != id,
        decreases ids@.len() - i,
    {
        if ids[i] == id {
            return true;
        }
        i += 1;
    }
    false
}

/// The routes of a token by the static table.
pub fn select_hashed(
    ids: &[u32],
    available_experts: &[u32],
    scores: &[u32],
    active_experts: usize,
) -> (routes: Vec<ExpertRoute>)
    ensures
        routes@ == cut(
            hashed_upto(ids@, available_experts@, scores@, ids@.len() as int),
            active_experts as int,
        ),
{
    let mut routes: Vec<ExpertRoute> = Vec::new();
    let mut i: usize = 0;
    while i < ids.len()
        invariant
            i <= ids@.len(),
            routes@ == hashed_upto(ids@, available_experts@, scores@, i as int),
        decreases ids@.len() - i,
    {
        let id: u32 = ids[i];
        if contains_id(available_experts, id) && (id as usize) < scores.len() {
            routes.push(ExpertRoute { expert_id: id, score_bits: scores[id as usize] });
        }
        i += 1;
    }
    if active_experts < routes.len() {
        routes.truncate(active_experts);
    } else {
        proof {
            assert(routes@.take(routes@.len() as int) =~= routes@);
        }
    }
    routes
}

/// An expert that may be chosen: its score, and the bias on it, if any.
#[derive(Clone, Copy, Debug, PartialEq, Eq, Structural)]
pub struct RouteCandidate {
    pub expert_id: u32,
    pub score_bits: u32,
    pub bias_bits: Option<u32>,
}

/// The bias of an expert.
pub open spec fn bias_of(bias: Option<Seq<u32>>, id: u32) -> Option<u32> {
    match bias {
        Some(values) => if id < values.len() {
            Some(values[id as int])
        } else {
            None
        },
        None => None,
    }
}

/// The candidates among the first `n` available experts: those with a score.
pub open spec fn candidates_upto(
    available: Seq<u32>,
    scores: Seq<u32>,
    bias: Option<Seq<u32>>,
    n: int,
) -> Seq<RouteCandidate>
    decreases n,
{
    if n <= 0 {
        seq![]
    } else {
        let before = candidates_upto(available, scores, bias, n - 1);
        let id = available[n - 1];
        if id < scores.len() {
            before.push(
                RouteCandidate {
                    expert_id: id,
                    score_bits: scores[id as int],
                    bias_bits: bias_of(bias, id),
                },
            )
        } else {
            before
        }
    }
}

/// What a bias that may be missing holds.
pub open spec fn bias_view(bias: Option<&[u32]>) -> Option<Seq<u32>> {
    match bias {
        Some(values) => Some(values@),
        None => None,
    }
}

/// The experts that may be chosen, in the order in which they are available.
pub fn route_candidates(available_experts: &[u32], scores: &[u32], bias: Option<&[u32]>) -> (
candidates: Vec<RouteCandidate>)
    ensures
        candidates@ == candidates_upto(
            available_experts@,
            scores@,
            bias_view(bias),
            available_experts@.len() as int,
        ),
{
    let mut candidates: Vec<RouteCandidate> = Vec::new();
    let mut i: usize = 0;
    while i < available_experts.len()
        invariant
            i <= available_experts@.len(),
            candidates@ == candidates_upto(
                available_experts@,
                scores@,
                bias_view(bias),
                i as int,
            ),
        decreases available_experts@.len() - i,
    {
        let id: u32 = available_experts[i];
        let at: usize = id as usize;
        if at < scores.len() {
            let bias_bits: Option<u32> = match bias {
                Some(values) => if at < values.len() {
                    Some(values[at])
                } else {
                    None
                },
                None => None,
            };
            candidates.push(
                RouteCandidate { expert_id: id, score_bits: scores[at], bias_bits },
            );
        }
        i += 1;
    }
    candidates
}

/// Candidates with the place of what they are chosen by in the total order.
pub open spec fn keyed(choices: Seq<(u32, ExpertRoute)>) -> Seq<(i128, ExpertRoute)> {
    choices.map_values(|choice: (u32, ExpertRoute)| (total_key(choice.0) as i128, choice.1))
}

/// The routes of a ranking.
pub open spec fn routes_of(sorted: Seq<(i128, ExpertRoute)>) -> Seq<ExpertRoute> {
    sorted.map_values(|entry: (i128, ExpertRoute)| entry.1)
}

/// The routes to the `count` choices that rank highest.
pub open spec fn chosen(choices: Seq<(u32, ExpertRoute)>, count: int) -> Seq<ExpertRoute> {
    cut(routes_of(ranked(keyed(choices))), count)
}

/// The `count` choices that rank highest by their first field, which is what
/// they are chosen by: the score with the bias on it.
pub fn select_scored(choices: &[(u32, ExpertRoute)], count: usize) -> (routes: Vec<ExpertRoute>)
    ensures
        routes@ == chosen(choices@, count as int),
{
    let mut keys: Vec<(i128, ExpertRoute)> = Vec::new();
    let mut i: usize = 0;
    while i < choices.len()
        invariant
            i <= choices@.len(),
            keys@ == keyed(choices@.take(i as int)),
        decreases choices@.len() - i,
    {
        let (bits, route): (u32, ExpertRoute) = choices[i];
        let key: i128 = total_order_key(bits);
        keys.push((key, route));
        proof {
            assert(keys@ =~= keyed(choices@.take(i + 1)));
        }
        i += 1;
    }
    proof {
        assert(choices@.take(i as int) =~= choices@);
    }
    let sorted: Vec<(i128, ExpertRoute)> = rank_descending(&keys);
    let limit: usize = if count < sorted.len() {
        count
    } else {
        sorted.len()
    };
    let mut routes: Vec<ExpertRoute> = Vec::new();
    let mut j: usize = 0;
    while j < limit
        invariant
            j <= limit,
            limit <= sorted@.len(),
            routes@ == routes_of(sorted@).take(j as int),
        decreases limit - j,
    {
        routes.push(sorted[j].1);
        proof {
            assert(routes@ =~= routes_of(sorted@).take(j + 1));
        }
        j += 1;
    }
    routes
}

/// All experts with their scores, each chosen by its score.
pub open spec fn by_score(scores: Seq<u32>) -> Seq<(u32, ExpertRoute)> {
    Seq::new(
        scores.len(),
        |i: int| (scores[i], ExpertRoute { expert_id: i as u32, score_bits: scores[i] }),
    )
}

/// The `top_k` experts with the highest scores.
pub fn select_top_experts(scores: &[u32], top_k: usize) -> (routes: Vec<ExpertRoute>)
    ensures
        routes@ == chosen(by_score(scores@), top_k as int),
{
    let mut choices: Vec<(u32, ExpertRoute)> = Vec::new();
    let mut i: usize = 0;
    while i < scores.len()
        invariant
            i <= scores@.len(),
            choices@ == by_score(scores@).take(i as int),
        decreases scores@.len() - i,
    {
        let bits: u32 = scores[i];
        choices.push((bits, ExpertRoute { expert_id: i as u32, score_bits: bits }));
        proof {
            assert(choices@ =~= by_score(scores@).take(i + 1));
        }
        i += 1;
    }
    proof {
        assert(choices@ =~= by_score(scores@));
    }
    select_scored(&choices, top_k)
}

/// Are the routes to be divided by `sum_bits`, the sum of their scores? It is
/// where the sum is above zero and finite; otherwise all routes weigh the same.
pub fn route_sum_usable(sum_bits: u32) -> (usable: bool)
    ensures
        usable == (greater(sum_bits, 0) && magnitude_bits(sum_bits) < 0x7f80_0000),
{
    bits_greater(sum_bits, 0) && sum_bits % 0x8000_0000 < 0x7f80_0000
}

/// Are the final weights of the routes worked out, or do the scores stand?
pub fn finalizes_weights(options: RouteOptions, routes: usize) -> (finalizes: bool)
    ensures
        finalizes == (options.math == RouterMath::DeepSeekV4SqrtSoftplus && routes > 0),
{
    options.math == RouterMath::DeepSeekV4SqrtSoftplus && routes > 0
}

proof fn lemma_hashed_available(ids: Seq<u32>, available: Seq<u32>, scores: Seq<u32>, n: int)
    ensures
        forall|i: int|
            0 <= i < hashed_upto(ids, available, scores, n).len() ==> {
                let route = #[trigger] hashed_upto(ids, available, scores, n)[i];
                available.contains(route.expert_id) && route.expert_id < scores.len()
                    && route.score_bits == scores[route.expert_id as int]
            },
    decreases n,
{
    if n > 0 {
        lemma_hashed_available(ids, available, scores, n - 1);
        let before = hashed_upto(ids, available, scores, n - 1);
        let routes = hashed_upto(ids, available, scores, n);
        assert forall|i: int| 0 <= i < routes.len() implies ({
            let route = #[trigger] routes[i];
            available.contains(route.expert_id) && route.expert_id < scores.len()
                && route.score_bits == scores[route.expert_id as int]
        }) by {
            if i < before.len() {
                assert(routes[i] == before[i]);
            }
        }
    }
}

/// Routes by the static table go to available experts, carry their scores, and
/// are no more than asked for.
pub proof fn law_hashed_routes_are_available(
    ids: Seq<u32>,
    available: Seq<u32>,
    scores: Seq<u32>,
    active: int,
)
    requires
        active >= 0,
    ensures
        ({
            let routes = cut(hashed_upto(ids, available, scores, ids.len() as int), active);
            &&& routes.len() <= active
            &&& forall|i: int|
                0 <= i < routes.len() ==> {
                    let route = #[trigger] routes[i];
                    available.contains(route.expert_id) && route.expert_id < scores.len()
                        && route.score_bits == scores[route.expert_id as int]
                }
        }),
{
    lemma_hashed_available(ids, available, scores, ids.len() as int);
}

/// Routes by score are among the choices, as many as there are or as are asked
/// for, and a choice that is left out does not rank above one that is taken.
pub proof fn law_chosen_rank_highest(choices: Seq<(u32, ExpertRoute)>, count: int)
    requires
        count >= 0,
    ensures
        chosen(choices, count).len() == smaller(count, choices.len() as int),
        forall|i: int|
            0 <= i < chosen(choices, count).len() ==> exists|c: int|
                0 <= c < choices.len() && (#[trigger] choices[c]).1 == #[trigger] chosen(
                    choices,
                    count,
                )[i],
        forall|kept: int, left: int|
            0 <= kept < chosen(choices, count).len() <= left < choices.len() ==> (
            #[trigger] ranked(keyed(choices))[kept]).0 >= (#[trigger] ranked(
                keyed(choices),
            )[left]).0,
{
    let keys = keyed(choices);
    let sorted = ranked(keys);
    law_ranked_sorts(keys);
    assert forall|i: int| 0 <= i < chosen(choices, count).len() implies exists|c: int|
        0 <= c < choices.len() && (#[trigger] choices[c]).1 == #[trigger] chosen(
            choices,
            count,
        )[i] by {
        broadcast use vstd::seq_lib::group_to_multiset_ensures;

        assert(chosen(choices, count)[i] == sorted[i].1);
        assert(sorted.contains(sorted[i]));
        assert(sorted.to_multiset().count(sorted[i]) > 0);
        assert(keys.contains(sorted[i]));
        let c = choose|c: int| 0 <= c < keys.len() && keys[c] == sorted[i];
        assert(choices[c].1 == sorted[i].1);
    }
}

/// Accepts the experts that have a score.
pub open spec fn has_score(scores: Seq<u32>) -> spec_fn(u32) -> bool {
    |id: u32| id < scores.len()
}

proof fn lemma_candidates(
    available: Seq<u32>,
    scores: Seq<u32>,
    bias: Option<Seq<u32>>,
    n: int,
)
    requires
        0 <= n <= available.len(),
    ensures
        candidates_upto(available, scores, bias, n).map_values(
            |candidate: RouteCandidate| candidate.expert_id,
        ) == available.take(n).filter(has_score(scores)),
        forall|i: int|
            0 <= i < candidates_upto(available, scores, bias, n).len() ==> {
                let candidate = #[trigger] candidates_upto(available, scores, bias, n)[i];
                &&& candidate.expert_id < scores.len()
                &&& candidate.score_bits == scores[candidate.expert_id as int]
                &&& bias is None ==> candidate.bias_bits is None
                &&& bias matches Some(values) ==> if candidate.expert_id < values.len() {
                    candidate.bias_bits == Some(values[candidate.expert_id as int])
                } else {
                    candidate.bias_bits is None
                }
            },
    decreases n,
{
    reveal(Seq::filter);
    let ids = |candidate: RouteCandidate| candidate.expert_id;
    let all = candidates_upto(available, scores, bias, n);
    if n > 0 {
        lemma_candidates(available, scores, bias, n - 1);
        let before = candidates_upto(available, scores, bias, n - 1);
        let taken = available.take(n);
        assert(taken.drop_last() =~= available.take(n - 1));
        assert(taken.last() == available[n - 1]);
        assert forall|i: int| 0 <= i < before.len() implies all[i] == #[trigger] before[i] by {}
        if available[n - 1] < scores.len() {
            assert(all.map_values(ids) =~= before.map_values(ids).push(available[n - 1]));
        }
    } else {
        assert(available.take(0).filter(has_score(scores)) =~= Seq::<u32>::empty());
        assert(all.map_values(ids) =~= Seq::<u32>::empty());
    }
}

/// The candidates are the available experts that have a score, in the order in
/// which they are available. Each has the score at its own number, and the bias
/// there, where there is one.
pub proof fn law_candidates_carry_their_scores(
    available: Seq<u32>,
    scores: Seq<u32>,
    bias: Option<Seq<u32>>,
)
    ensures
        ({
            let candidates = candidates_upto(available, scores, bias, available.len() as int);
            &&& candidates.map_values(|candidate: RouteCandidate| candidate.expert_id)
                == available.filter(|id: u32| id < scores.len())
            &&& forall|i: int|
                0 <= i < candidates.len() ==> {
                    let candidate = #[trigger] candidates[i];
                    &&& candidate.expert_id < scores.len()
                    &&& candidate.score_bits == scores[candidate.expert_id as int]
                    &&& bias is None ==> candidate.bias_bits is None
                    &&& bias matches Some(values) ==> if candidate.expert_id < values.len() {
                        candidate.bias_bits == Some(values[candidate.expert_id as int])
                    } else {
                        candidate.bias_bits is None
                    }
                }
        }),
{
    lemma_candidates(available, scores, bias, available.len() as int);
    assert(available.take(available.len() as int) =~= available);
    assert(has_score(scores) =~= (|id: u32| id < scores.len()));
}

/// Accepts the experts that are available and have a score.
pub open spec fn may_route(available: Seq<u32>, scores: Seq<u32>) -> spec_fn(u32) -> bool {
    |id: u32| available.contains(id) && id < scores.len()
}

proof fn lemma_hashed_ids(ids: Seq<u32>, available: Seq<u32>, scores: Seq<u32>, n: int)
    requires
        0 <= n <= ids.len(),
    ensures
        hashed_upto(ids, available, scores, n).map_values(|route: ExpertRoute| route.expert_id)
            == ids.take(n).filter(may_route(available, scores)),
    decreases n,
{
    reveal(Seq::filter);
    let numbers = |route: ExpertRoute| route.expert_id;
    let all = hashed_upto(ids, available, scores, n);
    if n > 0 {
        lemma_hashed_ids(ids, available, scores, n - 1);
        let before = hashed_upto(ids, available, scores, n - 1);
        let taken = ids.take(n);
        assert(taken.drop_last() =~= ids.take(n - 1));
        assert(taken.last() == ids[n - 1]);
        if may_route(available, scores)(ids[n - 1]) {
            assert(all.map_values(numbers) =~= before.map_values(numbers).push(ids[n - 1]));
        }
    } else {
        assert(ids.take(0).filter(may_route(available, scores)) =~= Seq::<u32>::empty());
        assert(all.map_values(numbers) =~= Seq::<u32>::empty());
    }
}

/// Routes by the static table go to the experts of its row, in its order, but
/// for those that are not available or have no score, up to the number asked
/// for. Each carries the score at its own number.
pub proof fn law_hashed_routes_keep_table_order(
    ids: Seq<u32>,
    available: Seq<u32>,
    scores: Seq<u32>,
    active: int,
)
    requires
        active >= 0,
    ensures
        ({
            let usable = ids.filter(|id: u32| available.contains(id) && id < scores.len());
            let routes = cut(hashed_upto(ids, available, scores, ids.len() as int), active);
            &&& routes.len() == if active < usable.len() {
                active
            } else {
                usable.len() as int
            }
            &&& forall|i: int|
                0 <= i < routes.len() ==> (#[trigger] routes[i]).expert_id == usable[i]
                    && routes[i].score_bits == scores[usable[i] as int]
        }),
{
    let all = hashed_upto(ids, available, scores, ids.len() as int);
    let numbers = all.map_values(|route: ExpertRoute| route.expert_id);
    lemma_hashed_available(ids, available, scores, ids.len() as int);
    lemma_hashed_ids(ids, available, scores, ids.len() as int);
    assert(ids.take(ids.len() as int) =~= ids);
    assert(may_route(available, scores) =~= (|id: u32|
        available.contains(id) && id < scores.len()));
    let routes = cut(all, active);
    assert forall|i: int| 0 <= i < routes.len() implies (#[trigger] routes[i]).expert_id
        == numbers[i] && routes[i].score_bits == scores[numbers[i] as int] by {
        assert(routes[i] == all[i]);
    }
}

/// Routes by score are the choices at `places`, no choice twice. What comes
/// first was chosen by a number that is higher in the total order, or as high
/// and offered earlier; so it is with every choice that is left out.
pub proof fn law_chosen_stand_highest(choices: Seq<(u32, ExpertRoute)>, count: int) -> (places:
    Seq<int>)
    requires
        count >= 0,
    ensures
        places.len() == chosen(choices, count).len(),
        places.len() == if count < choices.len() {
            count
        } else {
            choices.len() as int
        },
        forall|i: int| 0 <= i < places.len() ==> 0 <= #[trigger] places[i] < choices.len(),
        forall|i: int|
            0 <= i < places.len() ==> #[trigger] chosen(choices, count)[i] == choices[places[i]].1,
        forall|i: int, c: int|
            0 <= i < places.len() && 0 <= c < choices.len() && !places.take(i + 1).contains(c) ==> {
                let kept = total_key((#[trigger] choices[places[i]]).0);
                let after = total_key((#[trigger] choices[c]).0);
                kept > after || (kept == after && places[i] < c)
            },
        places.no_duplicates(),
{
    let keys = keyed(choices);
    let all = law_ranking_arranges(keys);
    let places = all.take(smaller(count, choices.len() as int));
    assert forall|i: int, c: int|
        0 <= i < places.len() && 0 <= c < choices.len() && !places.take(i + 1).contains(
            c,
        ) implies ({
        let kept = total_key((#[trigger] choices[places[i]]).0);
        let after = total_key((#[trigger] choices[c]).0);
        kept > after || (kept == after && places[i] < c)
    }) by {
        assert(all.contains(c));
        let j = choose|j: int| 0 <= j < all.len() && all[j] == c;
        if j <= i {
            assert(places.take(i + 1)[j] == c);
        }
        assert(all[i] == places[i]);
        assert(keys[places[i]].0 == total_key(choices[places[i]].0));
        assert(keys[c].0 == total_key(choices[c].0));
    }
    assert forall|i: int| 0 <= i < places.len() implies #[trigger] chosen(choices, count)[i]
        == choices[places[i]].1 by {
        assert(ranked(keys)[i] == keys[all[i]]);
    }
    assert forall|i: int, j: int| 0 <= i < places.len() && 0 <= j < places.len() && i
        != j implies places[i] != places[j] by {
        if i < j {
            assert(all[i] != all[j]);
        } else {
            assert(all[j] != all[i]);
        }
    }
    places
}

/// The highest scores: each route carries the score at its own number, no
/// expert comes twice, scores do not rise from one to the next, and no expert
/// without a route has a higher one.
pub proof fn law_top_experts_score_highest(scores: Seq<u32>, top_k: int)
    requires
        top_k >= 0,
        scores.len() <= u32::MAX,
    ensures
        ({
            let routes = chosen(by_score(scores), top_k);
            &&& routes.len() == if top_k < scores.len() {
                top_k
            } else {
                scores.len() as int
            }
            &&& forall|i: int|
                0 <= i < routes.len() ==> (#[trigger] routes[i]).expert_id < scores.len()
                    && routes[i].score_bits == scores[routes[i].expert_id as int]
            &&& forall|i: int, j: int|
                0 <= i < j < routes.len() ==> (#[trigger] routes[i]).expert_id != (
                #[trigger] routes[j]).expert_id && total_key(routes[i].score_bits) >= total_key(
                    routes[j].score_bits,
                )
            &&& forall|i: int, id: int|
                0 <= i < routes.len() && 0 <= id < scores.len() && (forall|j: int|
                    0 <= j < routes.len() ==> (#[trigger] routes[j]).expert_id != id)
                    ==> total_key((#[trigger] routes[i]).score_bits) >= total_key(
                    #[trigger] scores[id],
                )
        }),
{
    let choices = by_score(scores);
    let routes = chosen(choices, top_k);
    let places = law_chosen_stand_highest(choices, top_k);
    assert forall|i: int| 0 <= i < routes.len() implies (#[trigger] routes[i]).expert_id
        == places[i] && routes[i].score_bits == scores[places[i]] by {
        assert(routes[i] == choices[places[i]].1);
    }
    assert forall|i: int, j: int| 0 <= i < j < routes.len() implies (#[trigger] routes[i]).expert_id
        != (#[trigger] routes[j]).expert_id && total_key(routes[i].score_bits) >= total_key(
        routes[j].score_bits,
    ) by {
        assert(places[i] != places[j]);
        assert forall|k: int| 0 <= k < places.take(i + 1).len() implies #[trigger] places.take(
            i + 1,
        )[k]
            != places[j] by {
            assert(places.take(i + 1)[k] == places[k]);
        }
        assert(!places.take(i + 1).contains(places[j]));
        assert(choices[places[i]].0 == scores[places[i]]);
        assert(choices[places[j]].0 == scores[places[j]]);
    }
    assert forall|i: int, id: int|
        0 <= i < routes.len() && 0 <= id < scores.len() && (forall|j: int|
            0 <= j < routes.len() ==> (#[trigger] routes[j]).expert_id != id) implies total_key(
        (#[trigger] routes[i]).score_bits,
    ) >= total_key(#[trigger] scores[id]) by {
        assert forall|k: int| 0 <= k < places.take(i + 1).len() implies #[trigger] places.take(
            i + 1,
        )[k]
            != id by {
            assert(places.take(i + 1)[k] == places[k]);
            assert(routes[k].expert_id == places[k]);
        }
        assert(!places.take(i + 1).contains(id));
        assert(choices[places[i]].0 == scores[places[i]]);
        assert(choices[id].0 == scores[id]);
    }
}

/// The static table decides only for a token that is routed by it, and only
/// where the block has one; a bias counts only where scores are worked out by
/// square root and softplus.
pub proof fn law_table_and_bias_have_their_place(b: BlockView, rows: usize, options: RouteOptions)
    ensures
        route_rule_in(b, rows, options) matches Ok(RouteRuleView::Hashed(ids)) ==> (
        options.hash_token_id is Some && tid2eid_in(b) is Ok && tid2eid_in(b)->Ok_0 is Some
            && tid2eid_ids(tid2eid_in(b)->Ok_0->Some_0, options.hash_token_id->Some_0) == Ok::<
            Seq<u32>,
            ComputeError,
        >(ids)),
        route_rule_in(b, rows, options) matches Ok(RouteRuleView::Scored(bias)) ==> {
            &&& options.hash_token_id is None || tid2eid_in(b) == Ok::<
                Option<TensorView>,
                ComputeError,
            >(None)
            &&& options.math != RouterMath::DeepSeekV4SqrtSoftplus ==> bias is None
            &&& options.math == RouterMath::DeepSeekV4SqrtSoftplus ==> router_bias(b, rows) == Ok::<
                Option<Seq<u32>>,
                ComputeError,
            >(bias)
        },
{
}

/// The scores are the product of the whole gate of the router with a token: one
/// score to each row, where the token has a value for each column and the scratch
/// room for each score.
pub proof fn law_routers_score_every_expert(b: BlockView, hidden_len: usize, scratch_len: int)
    ensures
        router_in(b, hidden_len, scratch_len) matches Ok(Some(plan)) ==> (router_gate(
            b,
            hidden_len,
        ) matches Ok(Some(gate)) && gate.dims.len() == 2 && plan.rows == gate.dims[0] && plan.cols
            == gate.dims[1] && plan.cols <= hidden_len && plan.rows <= scratch_len && (gemv_in(
            b,
            gate,
            plan.cols as int,
            plan.rows as int,
        ) matches Ok(product) && product.0 == plan.product)),
        router_in(b, hidden_len, scratch_len) == Ok::<Option<RouterView>, ComputeError>(None)
            <==> router_gate(b, hidden_len) == Ok::<Option<TensorView>, ComputeError>(None),
{
}

/// What `route_candidates` returns: the available experts that have a score, in
/// their order, each with the score and the bias at its own number.
pub proof fn law_route_candidates(
    available: &[u32],
    scores: &[u32],
    bias: Option<&[u32]>,
    candidates: Vec<RouteCandidate>,
)
    requires
        call_ensures(route_candidates, (available, scores, bias), candidates),
    ensures
        candidates@.map_values(|candidate: RouteCandidate| candidate.expert_id)
            == available@.filter(|id: u32| id < scores@.len()),
        forall|i: int|
            0 <= i < candidates@.len() ==> {
                let candidate = #[trigger] candidates@[i];
                &&& candidate.score_bits == scores@[candidate.expert_id as int]
                &&& match bias {
                    Some(values) => if candidate.expert_id < values@.len() {
                        candidate.bias_bits == Some(values@[candidate.expert_id as int])
                    } else {
                        candidate.bias_bits is None
                    },
                    None => candidate.bias_bits is None,
                }
            },
{
    law_candidates_carry_their_scores(available@, scores@, bias_view(bias));
}

/// What `select_hashed` returns: the experts of the row that are available and have
/// a score, in the order of the row, up to the number asked for.
pub proof fn law_select_hashed(
    ids: &[u32],
    available: &[u32],
    scores: &[u32],
    active: usize,
    routes: Vec<ExpertRoute>,
)
    requires
        call_ensures(select_hashed, (ids, available, scores, active), routes),
    ensures
        ({
            let usable = ids@.filter(|id: u32| available@.contains(id) && id < scores@.len());
            &&& routes@.len() == if active < usable.len() {
                active as int
            } else {
                usable.len() as int
            }
            &&& forall|i: int|
                0 <= i < routes@.len() ==> (#[trigger] routes@[i]).expert_id == usable[i]
                    && routes@[i].score_bits == scores@[usable[i] as int]
        }),
{
    law_hashed_routes_keep_table_order(ids@, available@, scores@, active as int);
}

/// What `select_scored` returns: as many choices as are asked for, none twice, those
/// with the highest numbers, from the highest down.
pub proof fn law_select_scored(
    choices: &[(u32, ExpertRoute)],
    count: usize,
    routes: Vec<ExpertRoute>,
) -> (places: Seq<int>)
    requires
        call_ensures(select_scored, (choices, count), routes),
    ensures
        places.len() == routes@.len(),
        places.len() == if count < choices@.len() {
            count as int
        } else {
            choices@.len() as int
        },
        places.no_duplicates(),
        forall|i: int|
            0 <= i < places.len() ==> 0 <= #[trigger] places[i] < choices@.len() && routes@[i]
                == choices@[places[i]].1,
        forall|i: int, c: int|
            0 <= i < places.len() && 0 <= c < choices@.len() && !places.take(i + 1).contains(c)
                ==> total_key((#[trigger] choices@[places[i]]).0) >= total_key(
                (#[trigger] choices@[c]).0,
            ),
{
    let places = law_chosen_stand_highest(choices@, count as int);
    assert forall|i: int| 0 <= i < places.len() implies 0 <= #[trigger] places[i] < choices@.len()
        && routes@[i] == choices@[places[i]].1 by {
        assert(chosen(choices@, count as int)[i] == choices@[places[i]].1);
    }
    places
}

/// What `select_top_experts` returns: experts with their own scores, none twice, from
/// the highest score down, and none that is left out scores higher.
pub proof fn law_select_top_experts(scores: &[u32], top_k: usize, routes: Vec<ExpertRoute>)
    requires
        scores@.len() <= u32::MAX,
        call_ensures(select_top_experts, (scores, top_k), routes),
    ensures
        routes@.len() == if top_k < scores@.len() {
            top_k as int
        } else {
            scores@.len() as int
        },
        forall|i: int|
            0 <= i < routes@.len() ==> (#[trigger] routes@[i]).expert_id < scores@.len()
                && routes@[i].score_bits == scores@[routes@[i].expert_id as int],
        forall|i: int, j: int|
            0 <= i < j < routes@.len() ==> (#[trigger] routes@[i]).expert_id != (
            #[trigger] routes@[j]).expert_id && total_key(routes@[i].score_bits) >= total_key(
                routes@[j].score_bits,
            ),
        forall|i: int, id: int|
            0 <= i < routes@.len() && 0 <= id < scores@.len() && (forall|j: int|
                0 <= j < routes@.len() ==> (#[trigger] routes@[j]).expert_id != id) ==> total_key(
                (#[trigger] routes@[i]).score_bits,
            ) >= total_key(#[trigger] scores@[id]),
{
    law_top_experts_score_highest(scores@, top_k as int);
}

/// A sum divides the weights exactly where it is above zero and finite.
pub proof fn law_sums_divide_where_they_can(sum_bits: u32, usable: bool)
    requires
        call_ensures(route_sum_usable, (sum_bits,), usable),
    ensures
        usable == (0 < sum_bits < 0x7f80_0000),
{
}

} // verus!
