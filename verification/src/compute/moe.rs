//! Several experts at once: their plans, their weights, and how the routed
//! output and the shared one are put together.

use crate::compute::config::{smaller_of, ComputeConfig};
use crate::compute::error::ComputeError;
use crate::compute::experts::{plan_expert_block, plan_shared_expert, ExpertPlan, SharedPlan};
use crate::floats::{bits_are_nan, bits_greater};
use vstd::prelude::*;

verus! {

use crate::compute::config::smaller;
use crate::compute::experts::{expert_of, shared_of, ExpertView, SharedView};
use crate::floats::{greater, is_nan, is_negative, magnitude_bits};

/// A weight that is finite and not below zero.
pub open spec fn is_route_weight(bits: u32) -> bool {
    magnitude_bits(bits) < 0x7f80_0000 && (!is_negative(bits) || magnitude_bits(bits) == 0)
}

/// Are all weights finite and not below zero?
pub fn route_weights_valid(weights: &[u32]) -> (valid: bool)
    ensures
        valid == (forall|i: int|
            0 <= i < weights@.len() ==> is_route_weight(#[trigger] weights@[i])),
{
    let mut i: usize = 0;
    while i < weights.len()
        invariant
            i <= weights@.len(),
            forall|j: int| 0 <= j < i ==> is_route_weight(#[trigger] weights@[j]),
        decreases weights@.len() - i,
    {
        let bits: u32 = weights[i];
        if bits % 0x8000_0000 >= 0x7f80_0000 || bits > 0x8000_0000 {
            proof {
                assert(!is_route_weight(weights@[i as int]));
            }
            return false;
        }
        i += 1;
    }
    true
}

/// The least difference from one, in single precision.
pub const WEIGHT_EPSILON_BITS: u32 = 0x3400_0000;

/// Are the weights to be divided by `sum_bits`, their sum? Otherwise all
/// experts weigh the same.
pub fn weight_sum_usable(weights: &[u32], sum_bits: u32) -> (usable: bool)
    ensures
        usable == ((forall|i: int|
            0 <= i < weights@.len() ==> is_route_weight(#[trigger] weights@[i])) && (is_nan(
            sum_bits,
        ) || greater(sum_bits, WEIGHT_EPSILON_BITS))),
{
    let valid: bool = route_weights_valid(weights);
    valid && (bits_are_nan(sum_bits) || bits_greater(sum_bits, WEIGHT_EPSILON_BITS))
}

/// The contents of expert plans.
pub open spec fn expert_views(plans: Seq<ExpertPlan<'_>>) -> Seq<ExpertView> {
    plans.map_values(|plan: ExpertPlan<'_>| plan@)
}

/// The contents of expert blocks.
pub open spec fn block_bytes_of(experts: Seq<&[u8]>) -> Seq<Seq<u8>> {
    experts.map_values(|expert: &[u8]| expert@)
}

/// The plans of the first `n` experts, each over the same hidden state.
pub open spec fn expert_plans(
    experts: Seq<Seq<u8>>,
    n: int,
    hidden_len: int,
    scratch_len: int,
    config: ComputeConfig,
) -> Result<Seq<ExpertView>, ComputeError>
    decreases n,
{
    if n <= 0 {
        Ok(seq![])
    } else {
        match expert_plans(experts, n - 1, hidden_len, scratch_len, config) {
            Err(error) => Err(error),
            Ok(before) => match expert_of(experts[n - 1], hidden_len, scratch_len, config) {
                Err(error) => Err(error),
                Ok(plan) => Ok(before.push(plan)),
            },
        }
    }
}

proof fn lemma_expert_error(
    experts: Seq<Seq<u8>>,
    k: int,
    n: int,
    hidden_len: int,
    scratch_len: int,
    config: ComputeConfig,
)
    requires
        0 <= k <= n,
        expert_plans(experts, k, hidden_len, scratch_len, config) is Err,
    ensures
        expert_plans(experts, n, hidden_len, scratch_len, config) == expert_plans(
            experts,
            k,
            hidden_len,
            scratch_len,
            config,
        ),
    decreases n,
{
    if k < n {
        lemma_expert_error(experts, k, n - 1, hidden_len, scratch_len, config);
    }
}

/// The routed experts of a layer. A single one works on the hidden state
/// itself; several work on copies, which take scratch of their own.
pub open spec fn active_experts(
    experts: Seq<Seq<u8>>,
    hidden_len: int,
    scratch_len: int,
    config: ComputeConfig,
) -> Result<Seq<ExpertView>, ComputeError> {
    let required = 2 * smaller(hidden_len, config.hidden_size as int);
    if experts.len() <= 1 {
        expert_plans(experts, experts.len() as int, hidden_len, scratch_len, config)
    } else if required > usize::MAX {
        Err(ComputeError::InvalidShape("multi-expert scratch overflow"))
    } else if scratch_len <= required {
        Err(
            ComputeError::ScratchTooSmall {
                required: (required + 1) as usize,
                actual: scratch_len as usize,
            },
        )
    } else {
        expert_plans(experts, experts.len() as int, hidden_len, scratch_len - required, config)
    }
}

/// The executable plans match the model's, and what they read lies in the data.
pub open spec fn plans_agree(
    result: Result<Vec<ExpertPlan<'_>>, ComputeError>,
    model: Result<Seq<ExpertView>, ComputeError>,
) -> bool {
    match result {
        Ok(plans) => model == Ok::<Seq<ExpertView>, ComputeError>(expert_views(plans@)) && forall|
            i: int,
        |
            0 <= i < plans@.len() ==> (#[trigger] plans@[i])@.wf(),
        Err(error) => model == Err::<Seq<ExpertView>, ComputeError>(error),
    }
}

#[verifier::spinoff_prover]
#[verifier::rlimit(40)]
fn plan_experts<'a>(
    experts: &[&'a [u8]],
    hidden_len: usize,
    scratch_len: usize,
    config: &ComputeConfig,
) -> (result: Result<Vec<ExpertPlan<'a>>, ComputeError>)
    ensures
        plans_agree(
            result,
            expert_plans(
                block_bytes_of(experts@),
                experts@.len() as int,
                hidden_len as int,
                scratch_len as int,
                *config,
            ),
        ),
{
    let ghost blocks = block_bytes_of(experts@);
    let mut plans: Vec<ExpertPlan<'a>> = Vec::new();
    let mut i: usize = 0;
    proof {
        assert(expert_views(plans@) =~= seq![]);
    }
    while i < experts.len()
        invariant
            i <= experts@.len(),
            blocks == block_bytes_of(experts@),
            expert_plans(blocks, i as int, hidden_len as int, scratch_len as int, *config) == Ok::<
                Seq<ExpertView>,
                ComputeError,
            >(expert_views(plans@)),
            forall|j: int| 0 <= j < plans@.len() ==> (#[trigger] plans@[j])@.wf(),
        decreases experts@.len() - i,
    {
        let ghost before = plans@;
        match plan_expert_block(experts[i], hidden_len, scratch_len, config) {
            Ok(plan) => {
                plans.push(plan);
                proof {
                    assert(expert_views(plans@) =~= expert_views(before).push(plan@));
                }
            },
            Err(error) => {
                proof {
                    lemma_expert_error(
                        blocks,
                        i + 1,
                        blocks.len() as int,
                        hidden_len as int,
                        scratch_len as int,
                        *config,
                    );
                }
                return Err(error);
            },
        }
        i += 1;
    }
    Ok(plans)
}

/// Plans the routed experts of a layer.
pub fn plan_active_experts<'a>(
    experts: &[&'a [u8]],
    hidden_len: usize,
    scratch_len: usize,
    config: &ComputeConfig,
) -> (result: Result<Vec<ExpertPlan<'a>>, ComputeError>)
    ensures
        plans_agree(
            result,
            active_experts(
                block_bytes_of(experts@),
                hidden_len as int,
                scratch_len as int,
                *config,
            ),
        ),
{
    if experts.len() <= 1 {
        return plan_experts(experts, hidden_len, scratch_len, config);
    }
    let hidden: usize = smaller_of(hidden_len, config.hidden_size);
    let required: usize = match hidden.checked_mul(2) {
        Some(required) => required,
        None => return Err(ComputeError::InvalidShape("multi-expert scratch overflow")),
    };
    if scratch_len <= required {
        return Err(
            ComputeError::ScratchTooSmall { required: required + 1, actual: scratch_len },
        );
    }
    plan_experts(experts, hidden_len, scratch_len - required, config)
}

/// The routed experts of a layer and its shared one.
pub struct MoePlan<'a> {
    pub routed: Vec<ExpertPlan<'a>>,
    pub shared: Option<SharedPlan<'a>>,
}

/// The routed experts of a layer and its shared one, as contents.
#[verifier::ext_equal]
pub struct MoeView {
    pub routed: Seq<ExpertView>,
    pub shared: Option<SharedView>,
}

/// What a shared plan reads, where there is one.
pub open spec fn shared_view(shared: Option<SharedPlan<'_>>) -> Option<SharedView> {
    match shared {
        Some(plan) => Some(plan@),
        None => None,
    }
}

impl<'a> View for MoePlan<'a> {
    type V = MoeView;

    open spec fn view(&self) -> MoeView {
        MoeView { routed: expert_views(self.routed@), shared: shared_view(self.shared) }
    }
}

impl MoeView {
    /// The rows that are read lie in the data.
    pub open spec fn wf(self) -> bool {
        &&& forall|i: int| 0 <= i < self.routed.len() ==> (#[trigger] self.routed[i]).wf()
        &&& self.shared matches Some(plan) ==> plan.wf()
    }
}

/// The routed experts and the shared one of a layer, beside a copy of the
/// hidden state and one of the routed output.
pub open spec fn active_and_shared(
    dense: Seq<u8>,
    experts: Seq<Seq<u8>>,
    hidden_len: int,
    scratch_len: int,
    config: ComputeConfig,
) -> Result<MoeView, ComputeError> {
    let hidden = smaller(hidden_len, config.hidden_size as int);
    if hidden == 0 {
        Err(ComputeError::InvalidShape("hidden_states is empty"))
    } else if 2 * hidden > usize::MAX {
        Err(ComputeError::InvalidShape("shared expert scratch overflow"))
    } else if scratch_len <= 2 * hidden {
        Err(
            ComputeError::ScratchTooSmall {
                required: (2 * hidden + 1) as usize,
                actual: scratch_len as usize,
            },
        )
    } else {
        let rest = scratch_len - 2 * hidden;
        match active_experts(experts, hidden_len, rest, config) {
            Err(error) => Err(error),
            Ok(routed) => match shared_of(dense, hidden_len, rest, config) {
                Err(error) => Err(error),
                Ok(shared) => Ok(MoeView { routed, shared }),
            },
        }
    }
}

/// Plans the routed experts and the shared one of a layer.
#[verifier::spinoff_prover]
#[verifier::rlimit(40)]
pub fn plan_active_and_shared<'a>(
    dense: &'a [u8],
    experts: &[&'a [u8]],
    hidden_len: usize,
    scratch_len: usize,
    config: &ComputeConfig,
) -> (result: Result<MoePlan<'a>, ComputeError>)
    ensures
        crate::compute::error::agrees(
            result,
            active_and_shared(
                dense@,
                block_bytes_of(experts@),
                hidden_len as int,
                scratch_len as int,
                *config,
            ),
        ),
        result matches Ok(plan) ==> plan@.wf(),
{
    let hidden: usize = smaller_of(hidden_len, config.hidden_size);
    if hidden == 0 {
        return Err(ComputeError::InvalidShape("hidden_states is empty"));
    }
    let required: usize = match hidden.checked_mul(2) {
        Some(required) => required,
        None => return Err(ComputeError::InvalidShape("shared expert scratch overflow")),
    };
    if scratch_len <= required {
        return Err(
            ComputeError::ScratchTooSmall { required: required + 1, actual: scratch_len },
        );
    }
    let rest: usize = scratch_len - required;
    let routed = plan_active_experts(experts, hidden_len, rest, config)?;
    let shared = plan_shared_expert(dense, hidden_len, rest, config)?;
    let plan = MoePlan { routed, shared };
    proof {
        assert(plan@.routed == expert_views(routed@));
        assert(plan@.shared == shared_view(shared));
    }
    Ok(plan)
}

/// What becomes of the hidden state once the experts have run.
#[derive(Clone, Copy, Debug, PartialEq, Eq, Structural)]
pub enum MoeOutput {
    /// The hidden state as it was.
    Unchanged,
    /// What the routed experts give.
    Routed,
    /// What the shared expert gives.
    Shared,
    /// The sum of both.
    RoutedAndShared,
}

/// What becomes of the hidden state.
pub open spec fn moe_output_of(routed: bool, shared: bool) -> MoeOutput {
    if routed && shared {
        MoeOutput::RoutedAndShared
    } else if routed {
        MoeOutput::Routed
    } else if shared {
        MoeOutput::Shared
    } else {
        MoeOutput::Unchanged
    }
}

/// What becomes of the hidden state, by which experts ran.
pub fn moe_output(routed: bool, shared: bool) -> (output: MoeOutput)
    ensures
        output == moe_output_of(routed, shared),
{
    if routed && shared {
        MoeOutput::RoutedAndShared
    } else if routed {
        MoeOutput::Routed
    } else if shared {
        MoeOutput::Shared
    } else {
        MoeOutput::Unchanged
    }
}

/// One expert for several positions: its plan, which is made only where there
/// is a position.
pub open spec fn expert_for_positions(
    expert: Seq<u8>,
    hidden: int,
    positions: int,
    scratch_len: int,
    config: ComputeConfig,
) -> Result<Option<ExpertView>, ComputeError> {
    if scratch_len <= hidden {
        Err(
            ComputeError::ScratchTooSmall {
                required: (hidden + 1) as usize,
                actual: scratch_len as usize,
            },
        )
    } else if positions == 0 {
        Ok(None)
    } else {
        match expert_of(expert, hidden, scratch_len - hidden, config) {
            Err(error) => Err(error),
            Ok(plan) => Ok(Some(plan)),
        }
    }
}

/// Plans one expert for several positions. Each of them is worked on in a copy
/// of `hidden` values.
pub fn plan_expert_for_positions<'a>(
    expert: &'a [u8],
    hidden: usize,
    positions: usize,
    scratch_len: usize,
    config: &ComputeConfig,
) -> (result: Result<Option<ExpertPlan<'a>>, ComputeError>)
    requires
        hidden < usize::MAX,
    ensures
        crate::compute::error::found_agrees(
            result,
            expert_for_positions(
                expert@,
                hidden as int,
                positions as int,
                scratch_len as int,
                *config,
            ),
        ),
        result matches Ok(Some(plan)) ==> plan@.wf(),
{
    if scratch_len <= hidden {
        return Err(ComputeError::ScratchTooSmall { required: hidden + 1, actual: scratch_len });
    }
    if positions == 0 {
        return Ok(None);
    }
    let plan = plan_expert_block(expert, hidden, scratch_len - hidden, config)?;
    Ok(Some(plan))
}

/// The values of one position among those of several.
pub fn position_span(len: usize, hidden: usize, position: usize) -> (span: Option<(usize, usize)>)
    ensures
        (position + 1) * hidden <= len ==> span == Some(
            ((position * hidden) as usize, ((position + 1) * hidden) as usize),
        ),
        (position + 1) * hidden > len ==> span is None,
{
    proof {
        assert((position + 1) * hidden == position * hidden + hidden) by (nonlinear_arith);
    }
    let start: usize = match position.checked_mul(hidden) {
        Some(start) => start,
        None => return None,
    };
    match start.checked_add(hidden) {
        Some(end) => if end <= len {
            Some((start, end))
        } else {
            None
        },
        None => None,
    }
}

/// The spans of two positions do not meet.
pub proof fn law_positions_do_not_meet(hidden: nat, a: nat, b: nat)
    requires
        a < b,
    ensures
        (a + 1) * hidden <= b * hidden,
{
    assert((a + 1) * hidden <= b * hidden) by (nonlinear_arith)
        requires
            a + 1 <= b,
    ;
}

/// A weight of a route counts where it is finite and not below zero; both zeros
/// do.
pub proof fn law_route_weights_are_finite(bits: u32)
    ensures
        is_route_weight(bits) == (bits < 0x7f80_0000 || bits == 0x8000_0000),
{
}

/// Each expert has its own plan: the i-th plan is that of the i-th block, and
/// there is a plan for every block or none at all.
#[verifier::spinoff_prover]
#[verifier::rlimit(60)]
pub proof fn law_plans_follow_their_experts(
    experts: Seq<Seq<u8>>,
    n: int,
    hidden_len: int,
    scratch_len: int,
    config: ComputeConfig,
)
    requires
        0 <= n <= experts.len(),
    ensures
        expert_plans(experts, n, hidden_len, scratch_len, config) is Ok == (forall|i: int|
            0 <= i < n ==> expert_of(#[trigger] experts[i], hidden_len, scratch_len, config) is Ok),
        expert_plans(experts, n, hidden_len, scratch_len, config) matches Ok(plans) ==> {
            &&& plans.len() == n
            &&& forall|i: int|
                0 <= i < n ==> expert_of(#[trigger] experts[i], hidden_len, scratch_len, config)
                    == Ok::<ExpertView, ComputeError>(plans[i])
        },
    decreases n,
{
    if n > 0 {
        law_plans_follow_their_experts(experts, n - 1, hidden_len, scratch_len, config);
        let last = expert_of(experts[n - 1], hidden_len, scratch_len, config);
        let before = expert_plans(experts, n - 1, hidden_len, scratch_len, config);
        let whole = expert_plans(experts, n, hidden_len, scratch_len, config);
        assert(whole is Ok == (before is Ok && last is Ok));
        if whole is Ok {
            assert(whole->Ok_0 == before->Ok_0.push(last->Ok_0));
        }
    }
}

/// What comes out of a layer of experts holds the share of the routed ones
/// exactly where there are some, and that of the shared one where there is one.
pub proof fn law_outputs_hold_their_shares(routed: bool, shared: bool)
    ensures
        routed == (moe_output_of(routed, shared) is Routed || moe_output_of(
            routed,
            shared,
        ) is RoutedAndShared),
        shared == (moe_output_of(routed, shared) is Shared || moe_output_of(
            routed,
            shared,
        ) is RoutedAndShared),
{
}

/// Routed experts and the shared one work in what is left of the scratch behind
/// two tokens; several routed ones behind two more.
pub proof fn law_experts_share_the_scratch(
    dense: Seq<u8>,
    experts: Seq<Seq<u8>>,
    hidden_len: int,
    scratch_len: int,
    config: ComputeConfig,
)
    requires
        0 <= hidden_len,
    ensures
        active_and_shared(dense, experts, hidden_len, scratch_len, config) matches Ok(plan) ==> {
            let hidden = if hidden_len < config.hidden_size {
                hidden_len
            } else {
                config.hidden_size as int
            };
            let rest = scratch_len - 2 * hidden;
            &&& rest > 0
            &&& plan.routed.len() == experts.len()
            &&& shared_of(dense, hidden_len, rest, config) == Ok::<
                Option<SharedView>,
                ComputeError,
            >(plan.shared)
            &&& forall|i: int|
                0 <= i < experts.len() ==> expert_of(
                    #[trigger] experts[i],
                    hidden_len,
                    if experts.len() <= 1 {
                        rest
                    } else {
                        rest - 2 * hidden
                    },
                    config,
                ) == Ok::<ExpertView, ComputeError>(plan.routed[i])
            &&& experts.len() > 1 ==> rest - 2 * hidden > 0
        },
{
    let hidden = smaller(hidden_len, config.hidden_size as int);
    let rest = scratch_len - 2 * hidden;
    let n = experts.len() as int;
    law_plans_follow_their_experts(experts, n, hidden_len, rest, config);
    law_plans_follow_their_experts(experts, n, hidden_len, rest - 2 * hidden, config);
}

/// Positions in a row have spans in a row: each starts where the one before it
/// ends, the first at the start.
pub proof fn law_position_spans(
    len: usize,
    hidden: usize,
    position: usize,
    span: (usize, usize),
    next: (usize, usize),
)
    requires
        position < usize::MAX,
        call_ensures(position_span, (len, hidden, position), Some(span)),
        call_ensures(position_span, (len, hidden, (position + 1) as usize), Some(next)),
    ensures
        span.1 - span.0 == hidden,
        next.0 == span.1,
        next.1 <= len,
        position == 0 ==> span.0 == 0,
{
    assert((position + 1) * hidden == position * hidden + hidden) by (nonlinear_arith);
    assert((position + 1 + 1) * hidden == position * hidden + 2 * hidden) by (nonlinear_arith);
    assert(0 * hidden == 0) by (nonlinear_arith);
}

} // verus!
