//! Finding tensors in a block, and what a block contains.

use crate::bytes::{bytes_contain, bytes_end_with, bytes_equal, bytes_to_lower, text_of};
use crate::compute::error::ComputeError;
use crate::compute::quant_block::{
    parse_quant_block, QuantBlockLayout, QuantTensorLayout, TensorRole,
};
use crate::deepseek_v4::{
    DeepSeekV4Fp4Expert, Fp4Matvec, QUANT_DEEPSEEK_FP4_E2M1_PACKED, QUANT_DEEPSEEK_FP8_E4M3,
    QUANT_DEEPSEEK_UE8M0_SCALE,
};
use vstd::prelude::*;

verus! {

use crate::bytes::{contains_bytes, ends_with_bytes, lower_bytes};
use crate::compute::error::{agrees, found_agrees};
use crate::compute::quant_block::{parsed_block, BlockView, TensorView};
use crate::deepseek_v4::{Fp4ExpertView, Fp4View};
use vstd::string::StringSliceAdditionalSpecFns;
use vstd::utf8::valid_utf8;

/// A tensor's name as text; a name that is not UTF-8 counts as empty.
pub open spec fn name_text(name: Seq<u8>) -> Seq<u8> {
    if valid_utf8(name) {
        name
    } else {
        seq![]
    }
}

/// A tensor's name as text, in lower case.
pub open spec fn lowered_name(name: Seq<u8>) -> Seq<u8> {
    lower_bytes(name_text(name))
}

/// `marker` stands in the tensor's name, upper and lower case alike.
pub open spec fn name_contains(t: TensorView, marker: Seq<u8>) -> bool {
    contains_bytes(lowered_name(t.name), marker)
}

pub(crate) fn lowered_text(name: &[u8]) -> (text: Vec<u8>)
    ensures
        text@ == lowered_name(name@),
{
    match text_of(name) {
        Some(text) => bytes_to_lower(text.as_bytes()),
        None => {
            let empty: Vec<u8> = Vec::new();
            proof {
                assert(empty@ =~= lower_bytes(seq![]));
            }
            empty
        },
    }
}

pub(crate) fn lowered_name_contains(tensor: &QuantTensorLayout<'_>, marker: &[u8]) -> (found: bool)
    ensures
        found == name_contains(tensor@, marker@),
{
    bytes_contain(&lowered_text(tensor.name), marker)
}

/// The first tensor of `layout` that `accepts` takes.
pub(crate) fn first_where<'a, F: Fn(&QuantTensorLayout<'a>) -> bool>(
    layout: &QuantBlockLayout<'a>,
    accepts: F,
    Ghost(wanted): Ghost<spec_fn(TensorView) -> bool>,
) -> (result: Result<Option<QuantTensorLayout<'a>>, ComputeError>)
    requires
        forall|t: &QuantTensorLayout<'a>| accepts.requires((t,)),
        forall|t: &QuantTensorLayout<'a>, taken: bool|
            accepts.ensures((t,), taken) ==> taken == wanted(t@),
    ensures
        found_agrees(result, layout@.first(wanted)),
{
    let count: usize = layout.tensor_count();
    let mut index: usize = 0;
    while index < count
        invariant
            count == layout@.count(),
            index <= count,
            forall|t: &QuantTensorLayout<'a>| accepts.requires((t,)),
            forall|t: &QuantTensorLayout<'a>, taken: bool|
                accepts.ensures((t,), taken) ==> taken == wanted(t@),
            layout@.first(wanted) == layout@.first_from(index as int, wanted),
        decreases count - index,
    {
        let tensor = match layout.tensor(index) {
            Ok(tensor) => tensor,
            Err(error) => return Err(error),
        };
        if accepts(&tensor) {
            return Ok(Some(tensor));
        }
        index += 1;
    }
    Ok(None)
}

/// The first rank-2 tensor with `role`.
pub fn first_rank2_tensor_by_role<'a>(layout: &QuantBlockLayout<'a>, role: TensorRole) -> (result:
    Result<Option<QuantTensorLayout<'a>>, ComputeError>)
    ensures
        found_agrees(
            result,
            layout@.first(|t: TensorView| t.role() == role && t.dims.len() == 2),
        ),
{
    let accepts = |t: &QuantTensorLayout<'a>| -> (taken: bool)
        ensures
            taken == (t@.role() == role && t@.dims.len() == 2),
    {
        t.role() == role && t.shape.rank() == 2
    };
    first_where(
        layout,
        accepts,
        Ghost(|t: TensorView| t.role() == role && t.dims.len() == 2),
    )
}

/// The first tensor called `name`.
pub fn find_optional_tensor_by_name<'a>(layout: &QuantBlockLayout<'a>, name: &[u8]) -> (result: Result<
    Option<QuantTensorLayout<'a>>,
    ComputeError,
>)
    ensures
        found_agrees(result, layout@.first(|t: TensorView| t.name == name@)),
{
    let accepts = |t: &QuantTensorLayout<'a>| -> (taken: bool)
        ensures
            taken == (t@.name == name@),
    {
        bytes_equal(t.name, name)
    };
    first_where(layout, accepts, Ghost(|t: TensorView| t.name == name@))
}

pub(crate) fn name_ends_with(tensor: &QuantTensorLayout<'_>, suffix: &str) -> (found: bool)
    ensures
        found == ends_with_bytes(name_text(tensor@.name), suffix.spec_bytes()),
{
    match text_of(tensor.name) {
        Some(text) => bytes_end_with(text.as_bytes(), suffix.as_bytes()),
        None => {
            let empty: Vec<u8> = Vec::new();
            proof {
                assert(empty@ =~= Seq::<u8>::empty());
            }
            bytes_end_with(&empty, suffix.as_bytes())
        },
    }
}

/// The first tensor whose name, as text, ends with `suffix`.
pub open spec fn by_suffix(b: BlockView, suffix: Seq<u8>) -> Result<
    Option<TensorView>,
    ComputeError,
> {
    b.first(|t: TensorView| ends_with_bytes(name_text(t.name), suffix))
}

/// The first tensor whose name, as text, ends with `suffix`.
pub fn tensor_by_name_suffix<'a>(layout: &QuantBlockLayout<'a>, suffix: &str) -> (result: Result<
    Option<QuantTensorLayout<'a>>,
    ComputeError,
>)
    ensures
        found_agrees(result, by_suffix(layout@, suffix.spec_bytes())),
{
    let accepts = |t: &QuantTensorLayout<'a>| -> (taken: bool)
        ensures
            taken == (ends_with_bytes(name_text(t@.name), suffix.spec_bytes())),
    {
        name_ends_with(t, suffix)
    };
    first_where(
        layout,
        accepts,
        Ghost(|t: TensorView| ends_with_bytes(name_text(t.name), suffix.spec_bytes())),
    )
}

/// The first rank-2 tensor with `role` and `cols` columns.
pub fn tensor_by_role_with_cols<'a>(layout: &QuantBlockLayout<'a>, role: TensorRole, cols: usize) -> (result: Result<
    Option<QuantTensorLayout<'a>>,
    ComputeError,
>)
    ensures
        found_agrees(result, layout@.first(|t: TensorView| has_role_and_cols(t, role, cols))),
{
    let accepts = |t: &QuantTensorLayout<'a>| -> (taken: bool)
        ensures
            taken == (has_role_and_cols(t@, role, cols)),
    {
        if t.role() == role && t.shape.rank() == 2 {
            match t.shape.dim(1) {
                Ok(dim) => dim == cols,
                Err(_) => false,
            }
        } else {
            false
        }
    };
    first_where(layout, accepts, Ghost(|t: TensorView| has_role_and_cols(t, role, cols)))
}

/// A rank-2 tensor with `role` and `cols` columns.
pub open spec fn has_role_and_cols(t: TensorView, role: TensorRole, cols: usize) -> bool {
    t.role() == role && t.dims.len() == 2 && t.dims[1] == cols
}

/// The static table from token to experts.
pub open spec fn is_tid2eid(t: TensorView) -> bool {
    t.role() == TensorRole::Router && t.dims.len() == 2 && name_contains(t, "tid2eid".spec_bytes())
}

/// A matrix that may be the router's gate: not the static table.
pub open spec fn may_be_gate(t: TensorView) -> bool {
    t.role() == TensorRole::Router && t.dims.len() == 2 && !name_contains(
        t,
        "tid2eid".spec_bytes(),
    )
}

fn tensor_is_tid2eid(tensor: &QuantTensorLayout<'_>) -> (found: bool)
    ensures
        found == is_tid2eid(tensor@),
{
    tensor.role() == TensorRole::Router && tensor.shape.rank() == 2 && lowered_name_contains(
        tensor,
        "tid2eid".as_bytes(),
    )
}

fn tensor_may_be_gate(tensor: &QuantTensorLayout<'_>) -> (found: bool)
    ensures
        found == may_be_gate(tensor@),
{
    tensor.role() == TensorRole::Router && tensor.shape.rank() == 2 && !lowered_name_contains(
        tensor,
        "tid2eid".as_bytes(),
    )
}

/// The static table from token to experts.
pub fn router_tid2eid_tensor<'a>(layout: &QuantBlockLayout<'a>) -> (result: Result<
    Option<QuantTensorLayout<'a>>,
    ComputeError,
>)
    ensures
        found_agrees(result, layout@.first(|t: TensorView| is_tid2eid(t))),
{
    let accepts = |t: &QuantTensorLayout<'a>| -> (taken: bool)
        ensures
            taken == (is_tid2eid(t@)),
    {
        tensor_is_tid2eid(t)
    };
    first_where(layout, accepts, Ghost(|t: TensorView| is_tid2eid(t)))
}

/// Accepts gate candidates with `cols` columns.
pub open spec fn gate_with_cols(cols: usize) -> spec_fn(TensorView) -> bool {
    |t: TensorView| may_be_gate(t) && t.dims[1] == cols
}

/// Accepts gate candidates.
pub open spec fn gate_candidate() -> spec_fn(TensorView) -> bool {
    |t: TensorView| may_be_gate(t)
}

/// The router's gate: the candidate with `hidden_len` columns, or else the
/// first candidate.
pub open spec fn router_gate(b: BlockView, hidden_len: usize) -> Result<
    Option<TensorView>,
    ComputeError,
> {
    match b.first(gate_with_cols(hidden_len)) {
        Err(error) => Err(error),
        Ok(Some(t)) => Ok(Some(t)),
        Ok(None) => b.first(gate_candidate()),
    }
}

/// The router's gate. A block may carry other matrices with the router's role,
/// so the one with `hidden_len` columns is preferred to the first.
pub fn router_gate_tensor<'a>(layout: &QuantBlockLayout<'a>, hidden_len: usize) -> (result: Result<
    Option<QuantTensorLayout<'a>>,
    ComputeError,
>)
    ensures
        found_agrees(result, router_gate(layout@, hidden_len)),
{
    let fits = |t: &QuantTensorLayout<'a>| -> (taken: bool)
        ensures
            taken == (may_be_gate(t@) && t@.dims[1] == hidden_len),
    {
        if tensor_may_be_gate(t) {
            match t.shape.dim(1) {
                Ok(dim) => dim == hidden_len,
                Err(_) => false,
            }
        } else {
            false
        }
    };
    match first_where(layout, fits, Ghost(gate_with_cols(hidden_len))) {
        Ok(Some(tensor)) => return Ok(Some(tensor)),
        Ok(None) => {},
        Err(error) => return Err(error),
    }
    let accepts = |t: &QuantTensorLayout<'a>| -> (taken: bool)
        ensures
            taken == may_be_gate(t@),
    {
        tensor_may_be_gate(t)
    };
    first_where(layout, accepts, Ghost(gate_candidate()))
}

/// `name` is that of the norm before the head.
pub open spec fn final_norm_name(name: Seq<u8>) -> bool {
    let lower = lower_bytes(name);
    valid_utf8(name) && (lower == "model.norm.weight".spec_bytes() || ends_with_bytes(
        lower,
        ".model.norm.weight".spec_bytes(),
    ) || ends_with_bytes(lower, "transformer.norm.weight".spec_bytes()) || ends_with_bytes(
        lower,
        "final_layernorm.weight".spec_bytes(),
    ) || ends_with_bytes(lower, "ln_f.weight".spec_bytes()))
}

/// Is `name` that of the norm before the head?
pub fn is_final_norm_name(name: &[u8]) -> (found: bool)
    ensures
        found == final_norm_name(name@),
{
    match text_of(name) {
        None => false,
        Some(text) => {
            let lower: Vec<u8> = bytes_to_lower(text.as_bytes());
            bytes_equal(&lower, "model.norm.weight".as_bytes()) || bytes_end_with(
                &lower,
                ".model.norm.weight".as_bytes(),
            ) || bytes_end_with(&lower, "transformer.norm.weight".as_bytes()) || bytes_end_with(
                &lower,
                "final_layernorm.weight".as_bytes(),
            ) || bytes_end_with(&lower, "ln_f.weight".as_bytes())
        },
    }
}

/// The norm before the head, over `hidden_size` values.
pub open spec fn is_final_norm(t: TensorView, hidden_size: usize) -> bool {
    t.role() == TensorRole::Norm && t.dims.len() == 1 && t.dims[0] == hidden_size
        && final_norm_name(t.name)
}

/// The norm before the head, over `hidden_size` values.
pub fn final_norm_tensor<'a>(layout: &QuantBlockLayout<'a>, hidden_size: usize) -> (result: Result<
    Option<QuantTensorLayout<'a>>,
    ComputeError,
>)
    ensures
        found_agrees(result, layout@.first(|t: TensorView| is_final_norm(t, hidden_size))),
{
    let accepts = |t: &QuantTensorLayout<'a>| -> (taken: bool)
        ensures
            taken == (is_final_norm(t@, hidden_size)),
    {
        if t.role() == TensorRole::Norm && t.shape.rank() == 1 {
            match t.shape.dim(0) {
                Ok(dim) => dim == hidden_size && is_final_norm_name(t.name),
                Err(_) => false,
            }
        } else {
            false
        }
    };
    first_where(layout, accepts, Ghost(|t: TensorView| is_final_norm(t, hidden_size)))
}

/// `name` is that of the norm that `marker` asks for, by the marker itself or
/// by the name that the norm has in the other model family.
pub open spec fn norm_name_matches(name: Seq<u8>, marker: Seq<u8>) -> bool {
    let lower = lower_bytes(name);
    contains_bytes(lower, marker) || (if marker == "input_layernorm".spec_bytes() {
        contains_bytes(lower, "attn_norm".spec_bytes())
    } else if marker == "post_attention_layernorm".spec_bytes() {
        contains_bytes(lower, "ffn_norm".spec_bytes())
    } else if marker == "q_a_layernorm".spec_bytes() {
        contains_bytes(lower, ".q_norm".spec_bytes()) || ends_with_bytes(
            lower,
            "q_norm.weight".spec_bytes(),
        )
    } else if marker == "kv_a_layernorm".spec_bytes() {
        contains_bytes(lower, ".kv_norm".spec_bytes()) || ends_with_bytes(
            lower,
            "kv_norm.weight".spec_bytes(),
        )
    } else {
        false
    })
}

fn norm_bytes_match(name: &[u8], marker: &[u8]) -> (found: bool)
    ensures
        found == norm_name_matches(name@, marker@),
{
    let lower: Vec<u8> = bytes_to_lower(name);
    if bytes_contain(&lower, marker) {
        return true;
    }
    if bytes_equal(marker, "input_layernorm".as_bytes()) {
        bytes_contain(&lower, "attn_norm".as_bytes())
    } else if bytes_equal(marker, "post_attention_layernorm".as_bytes()) {
        bytes_contain(&lower, "ffn_norm".as_bytes())
    } else if bytes_equal(marker, "q_a_layernorm".as_bytes()) {
        bytes_contain(&lower, ".q_norm".as_bytes()) || bytes_end_with(
            &lower,
            "q_norm.weight".as_bytes(),
        )
    } else if bytes_equal(marker, "kv_a_layernorm".as_bytes()) {
        bytes_contain(&lower, ".kv_norm".as_bytes()) || bytes_end_with(
            &lower,
            "kv_norm.weight".as_bytes(),
        )
    } else {
        false
    }
}

/// Is `name` that of the norm that `marker` asks for?
pub fn norm_name_matches_marker(name: &str, marker: &str) -> (found: bool)
    ensures
        found == norm_name_matches(name.spec_bytes(), marker.spec_bytes()),
{
    norm_bytes_match(name.as_bytes(), marker.as_bytes())
}

/// The norm that `marker` asks for.
pub open spec fn is_marked_norm(t: TensorView, marker: Seq<u8>) -> bool {
    t.role() == TensorRole::Norm && t.dims.len() == 1 && norm_name_matches(
        name_text(t.name),
        marker,
    )
}

fn tensor_is_marked_norm(tensor: &QuantTensorLayout<'_>, marker: &str) -> (found: bool)
    ensures
        found == is_marked_norm(tensor@, marker.spec_bytes()),
{
    if tensor.role() != TensorRole::Norm || tensor.shape.rank() != 1 {
        return false;
    }
    match text_of(tensor.name) {
        Some(text) => norm_name_matches_marker(text, marker),
        None => {
            let empty: Vec<u8> = Vec::new();
            proof {
                assert(empty@ =~= Seq::<u8>::empty());
            }
            norm_bytes_match(&empty, marker.as_bytes())
        },
    }
}

/// The norm that `marker` asks for.
pub fn norm_tensor_by_marker<'a>(layout: &QuantBlockLayout<'a>, marker: &str) -> (result: Result<
    Option<QuantTensorLayout<'a>>,
    ComputeError,
>)
    ensures
        found_agrees(result, layout@.first(|t: TensorView| is_marked_norm(t, marker.spec_bytes()))),
{
    let accepts = |t: &QuantTensorLayout<'a>| -> (taken: bool)
        ensures
            taken == (is_marked_norm(t@, marker.spec_bytes())),
    {
        tensor_is_marked_norm(t, marker)
    };
    first_where(layout, accepts, Ghost(|t: TensorView| is_marked_norm(t, marker.spec_bytes())))
}

/// A matrix of the shared expert whose name has `marker` in it.
pub open spec fn is_shared_expert_matrix(t: TensorView, marker: Seq<u8>) -> bool {
    t.role() == TensorRole::SharedExpert && t.dims.len() == 2 && name_contains(t, marker)
}

/// The matrix of the shared expert whose name has `marker` in it.
pub fn shared_expert_tensor_by_marker<'a>(layout: &QuantBlockLayout<'a>, marker: &str) -> (result: Result<
    Option<QuantTensorLayout<'a>>,
    ComputeError,
>)
    ensures
        found_agrees(result, layout@.first(|t: TensorView| is_shared_expert_matrix(t, marker.spec_bytes()))),
{
    let accepts = |t: &QuantTensorLayout<'a>| -> (taken: bool)
        ensures
            taken == (is_shared_expert_matrix(t@, marker.spec_bytes())),
    {
        t.role() == TensorRole::SharedExpert && t.shape.rank() == 2 && lowered_name_contains(
            t,
            marker.as_bytes(),
        )
    };
    first_where(layout, accepts, Ghost(|t: TensorView| is_shared_expert_matrix(t, marker.spec_bytes())))
}

/// Accepts tensors whose name ends with `suffix`.
pub open spec fn named_with_suffix(suffix: Seq<u8>) -> spec_fn(TensorView) -> bool {
    |t: TensorView| ends_with_bytes(t.name, suffix)
}

impl BlockView {
    /// The one tensor from `from` on that `wanted` accepts, after `found` has
    /// been seen before.
    pub open spec fn only_from(
        self,
        from: int,
        found: Option<TensorView>,
        wanted: spec_fn(TensorView) -> bool,
    ) -> Result<TensorView, ComputeError>
        decreases self.count() - from,
    {
        if from >= self.count() {
            match found {
                Some(tensor) => Ok(tensor),
                None => Err(
                    ComputeError::InvalidQuantBlock("missing DeepSeek expert tensor suffix"),
                ),
            }
        } else {
            match self.tensor(from) {
                Err(error) => Err(error),
                Ok(tensor) => if !wanted(tensor) {
                    self.only_from(from + 1, found, wanted)
                } else if found is Some {
                    Err(ComputeError::InvalidQuantBlock("duplicate DeepSeek expert tensor suffix"))
                } else {
                    self.only_from(from + 1, Some(tensor), wanted)
                },
            }
        }
    }

    /// The one tensor whose name ends with `suffix`.
    pub open spec fn only_with_suffix(self, suffix: Seq<u8>) -> Result<TensorView, ComputeError> {
        self.only_from(0, None, named_with_suffix(suffix))
    }

    /// Does a tensor before `n` satisfy `wanted`?
    pub open spec fn any_before(self, n: int, wanted: spec_fn(TensorView) -> bool) -> bool {
        exists|i: int|
            0 <= i < n && (#[trigger] self.tensor(i) matches Ok(tensor) && wanted(tensor))
    }

    /// How many tensors before `n` satisfy `wanted`.
    pub open spec fn count_before(self, n: int, wanted: spec_fn(TensorView) -> bool) -> nat
        decreases n,
    {
        if n <= 0 {
            0
        } else {
            self.count_before(n - 1, wanted) + (match self.tensor(n - 1) {
                Ok(tensor) => if wanted(tensor) {
                    1nat
                } else {
                    0nat
                },
                Err(_) => 0nat,
            })
        }
    }

    /// The error of the first tensor that cannot be read.
    pub open spec fn unreadable(self) -> Option<ComputeError> {
        match self.first(never()) {
            Err(error) => Some(error),
            Ok(_) => None,
        }
    }
}

/// The one tensor whose name ends with `suffix`.
pub fn find_tensor_by_suffix<'a>(layout: &QuantBlockLayout<'a>, suffix: &str) -> (result: Result<
    QuantTensorLayout<'a>,
    ComputeError,
>)
    ensures
        agrees(result, layout@.only_with_suffix(suffix.spec_bytes())),
{
    let ending: &[u8] = suffix.as_bytes();
    let ghost wanted = named_with_suffix(ending@);
    let mut found: Option<QuantTensorLayout<'a>> = None;
    let count: usize = layout.tensor_count();
    let mut index: usize = 0;
    while index < count
        invariant
            count == layout@.count(),
            index <= count,
            ending@ == suffix.spec_bytes(),
            wanted == named_with_suffix(ending@),
            layout@.only_with_suffix(ending@) == layout@.only_from(
                index as int,
                match found {
                    Some(tensor) => Some(tensor@),
                    None => None,
                },
                wanted,
            ),
        decreases count - index,
    {
        let tensor = match layout.tensor(index) {
            Ok(tensor) => tensor,
            Err(error) => return Err(error),
        };
        if bytes_end_with(tensor.name, ending) {
            if found.is_some() {
                return Err(
                    ComputeError::InvalidQuantBlock("duplicate DeepSeek expert tensor suffix"),
                );
            }
            found = Some(tensor);
        }
        index += 1;
    }
    match found {
        Some(tensor) => Ok(tensor),
        None => Err(ComputeError::InvalidQuantBlock("missing DeepSeek expert tensor suffix")),
    }
}

/// The scale tensor that belongs to an FP8 weight: the same name with
/// `.scale` in place of `.weight`.
pub open spec fn fp8_scale_of(b: BlockView, weight: TensorView) -> Result<
    TensorView,
    ComputeError,
> {
    let suffix = ".weight".spec_bytes();
    if !valid_utf8(weight.name) {
        Err(ComputeError::InvalidQuantBlock("DeepSeek FP8 tensor name is not UTF-8"))
    } else if !ends_with_bytes(weight.name, suffix) {
        Err(ComputeError::InvalidQuantBlock("DeepSeek FP8 weight name does not end with .weight"))
    } else {
        let scale_name = weight.name.take(weight.name.len() - suffix.len()) + ".scale".spec_bytes();
        match b.first(|t: TensorView| t.name == scale_name) {
            Err(error) => Err(error),
            Ok(Some(scale)) => Ok(scale),
            Ok(None) => Err(ComputeError::InvalidQuantBlock("missing DeepSeek FP8 scale tensor")),
        }
    }
}

/// The scale tensor that belongs to an FP8 weight.
pub fn fp8_scale_for_weight<'a>(
    layout: &QuantBlockLayout<'a>,
    weight: QuantTensorLayout<'_>,
) -> (result: Result<QuantTensorLayout<'a>, ComputeError>)
    ensures
        agrees(result, fp8_scale_of(layout@, weight@)),
{
    let name: &[u8] = match text_of(weight.name) {
        Some(text) => text.as_bytes(),
        None => return Err(
            ComputeError::InvalidQuantBlock("DeepSeek FP8 tensor name is not UTF-8"),
        ),
    };
    let suffix: &[u8] = ".weight".as_bytes();
    if !bytes_end_with(name, suffix) {
        return Err(
            ComputeError::InvalidQuantBlock("DeepSeek FP8 weight name does not end with .weight"),
        );
    }
    let mut scale_name: Vec<u8> = Vec::new();
    scale_name.extend_from_slice(&name[0..name.len() - suffix.len()]);
    scale_name.extend_from_slice(".scale".as_bytes());
    proof {
        assert(scale_name@ =~= weight@.name.take(weight@.name.len() - suffix@.len())
            + ".scale".spec_bytes());
    }
    match find_optional_tensor_by_name(layout, &scale_name) {
        Ok(Some(scale)) => Ok(scale),
        Ok(None) => Err(ComputeError::InvalidQuantBlock("missing DeepSeek FP8 scale tensor")),
        Err(error) => Err(error),
    }
}

/// The FP4 matrix that a weight and its scale make.
pub open spec fn fp4_matvec_of(weight: TensorView, scale: TensorView) -> Result<
    Fp4View,
    ComputeError,
> {
    let rows = weight.dims[0];
    let packed_cols = weight.dims[1];
    let scale_cols = scale.dims[1];
    if weight.quant_format != QUANT_DEEPSEEK_FP4_E2M1_PACKED {
        Err(ComputeError::InvalidQuantBlock("DeepSeek expert weight is not FP4 E2M1 packed"))
    } else if scale.quant_format != QUANT_DEEPSEEK_UE8M0_SCALE {
        Err(ComputeError::InvalidQuantBlock("DeepSeek expert scale is not UE8M0"))
    } else if weight.dims.len() != 2 || scale.dims.len() != 2 {
        Err(ComputeError::InvalidShape("DeepSeek FP4 expert rank"))
    } else if rows == 0 || packed_cols == 0 || scale_cols == 0 || scale.dims[0] != rows {
        Err(ComputeError::InvalidShape("DeepSeek FP4 expert shape"))
    } else if packed_cols * 2 > usize::MAX {
        Err(ComputeError::InvalidShape("DeepSeek FP4 expert cols overflow"))
    } else if rows * packed_cols > usize::MAX {
        Err(ComputeError::InvalidShape("DeepSeek FP4 expert weight overflow"))
    } else if weight.data.len() < rows * packed_cols {
        Err(ComputeError::TruncatedQuantBlock("DeepSeek FP4 expert weight"))
    } else if rows * scale_cols > usize::MAX {
        Err(ComputeError::InvalidShape("DeepSeek FP4 expert scale overflow"))
    } else if scale.data.len() < rows * scale_cols {
        Err(ComputeError::TruncatedQuantBlock("DeepSeek FP4 expert scale"))
    } else {
        Ok(
            Fp4View {
                packed_weight: weight.data.take(rows * packed_cols),
                ue8m0_scales: scale.data.take(rows * scale_cols),
                rows,
                cols: (packed_cols * 2) as usize,
                scale_cols,
            },
        )
    }
}

pub(crate) fn dims2(tensor: &QuantTensorLayout<'_>) -> (dims: (usize, usize))
    requires
        tensor@.dims.len() == 2,
    ensures
        dims.0 == tensor@.dims[0],
        dims.1 == tensor@.dims[1],
{
    match (tensor.shape.dim(0), tensor.shape.dim(1)) {
        (Ok(first), Ok(second)) => (first, second),
        _ => (0, 0),
    }
}

/// The FP4 matrix that a weight and its scale make.
pub fn deepseek_fp4_matvec_from_tensors<'a>(
    weight: QuantTensorLayout<'a>,
    scale: QuantTensorLayout<'a>,
) -> (result: Result<Fp4Matvec<'a>, ComputeError>)
    ensures
        agrees(result, fp4_matvec_of(weight@, scale@)),
{
    if weight.quant_format != QUANT_DEEPSEEK_FP4_E2M1_PACKED {
        return Err(
            ComputeError::InvalidQuantBlock("DeepSeek expert weight is not FP4 E2M1 packed"),
        );
    }
    if scale.quant_format != QUANT_DEEPSEEK_UE8M0_SCALE {
        return Err(ComputeError::InvalidQuantBlock("DeepSeek expert scale is not UE8M0"));
    }
    if weight.shape.rank() != 2 || scale.shape.rank() != 2 {
        return Err(ComputeError::InvalidShape("DeepSeek FP4 expert rank"));
    }
    let (rows, packed_cols): (usize, usize) = dims2(&weight);
    let (scale_rows, scale_cols): (usize, usize) = dims2(&scale);
    if rows == 0 || packed_cols == 0 || scale_cols == 0 || scale_rows != rows {
        return Err(ComputeError::InvalidShape("DeepSeek FP4 expert shape"));
    }
    let cols: usize = match packed_cols.checked_mul(2) {
        Some(cols) => cols,
        None => return Err(ComputeError::InvalidShape("DeepSeek FP4 expert cols overflow")),
    };
    let required_weight: usize = match rows.checked_mul(packed_cols) {
        Some(bytes) => bytes,
        None => return Err(ComputeError::InvalidShape("DeepSeek FP4 expert weight overflow")),
    };
    if weight.data.len() < required_weight {
        return Err(ComputeError::TruncatedQuantBlock("DeepSeek FP4 expert weight"));
    }
    let required_scales: usize = match rows.checked_mul(scale_cols) {
        Some(bytes) => bytes,
        None => return Err(ComputeError::InvalidShape("DeepSeek FP4 expert scale overflow")),
    };
    if scale.data.len() < required_scales {
        return Err(ComputeError::TruncatedQuantBlock("DeepSeek FP4 expert scale"));
    }
    let matvec = Fp4Matvec {
        packed_weight: &weight.data[0..required_weight],
        ue8m0_scales: &scale.data[0..required_scales],
        rows,
        cols,
        scale_cols,
    };
    proof {
        assert(matvec@.packed_weight =~= weight@.data.take(rows * packed_cols));
        assert(matvec@.ue8m0_scales =~= scale@.data.take(rows * scale_cols));
    }
    Ok(matvec)
}

/// The FP4 matrix of the tensors with these name suffixes.
pub open spec fn fp4_matvec_in(b: BlockView, weight: Seq<u8>, scale: Seq<u8>) -> Result<
    Fp4View,
    ComputeError,
> {
    match b.only_with_suffix(weight) {
        Err(error) => Err(error),
        Ok(w) => match b.only_with_suffix(scale) {
            Err(error) => Err(error),
            Ok(s) => fp4_matvec_of(w, s),
        },
    }
}

fn fp4_matvec_by_suffix<'a>(
    layout: &QuantBlockLayout<'a>,
    weight: &str,
    scale: &str,
) -> (result: Result<Fp4Matvec<'a>, ComputeError>)
    ensures
        agrees(result, fp4_matvec_in(layout@, weight.spec_bytes(), scale.spec_bytes())),
{
    let w = match find_tensor_by_suffix(layout, weight) {
        Ok(tensor) => tensor,
        Err(error) => return Err(error),
    };
    let s = match find_tensor_by_suffix(layout, scale) {
        Ok(tensor) => tensor,
        Err(error) => return Err(error),
    };
    deepseek_fp4_matvec_from_tensors(w, s)
}

/// The FP4 expert that a block holds.
pub open spec fn fp4_expert_in(b: BlockView) -> Result<Fp4ExpertView, ComputeError> {
    match fp4_matvec_in(b, ".w1.weight".spec_bytes(), ".w1.scale".spec_bytes()) {
        Err(error) => Err(error),
        Ok(w1) => match fp4_matvec_in(b, ".w3.weight".spec_bytes(), ".w3.scale".spec_bytes()) {
            Err(error) => Err(error),
            Ok(w3) => match fp4_matvec_in(
                b,
                ".w2.weight".spec_bytes(),
                ".w2.scale".spec_bytes(),
            ) {
                Err(error) => Err(error),
                Ok(w2) => if w1.cols != w3.cols || w1.rows != w3.rows || w2.cols != w1.rows {
                    Err(ComputeError::InvalidShape("DeepSeek FP4 expert projection"))
                } else {
                    Ok(Fp4ExpertView { w1, w3, w2 })
                },
            },
        },
    }
}

/// Reads the FP4 expert that a block holds.
pub fn deepseek_v4_fp4_expert_from_quant_block<'a>(layout: &QuantBlockLayout<'a>) -> (result:
    Result<DeepSeekV4Fp4Expert<'a>, ComputeError>)
    ensures
        agrees(result, fp4_expert_in(layout@)),
{
    let w1 = match fp4_matvec_by_suffix(layout, ".w1.weight", ".w1.scale") {
        Ok(matvec) => matvec,
        Err(error) => return Err(error),
    };
    let w3 = match fp4_matvec_by_suffix(layout, ".w3.weight", ".w3.scale") {
        Ok(matvec) => matvec,
        Err(error) => return Err(error),
    };
    let w2 = match fp4_matvec_by_suffix(layout, ".w2.weight", ".w2.scale") {
        Ok(matvec) => matvec,
        Err(error) => return Err(error),
    };
    if w1.cols != w3.cols || w1.rows != w3.rows || w2.cols != w1.rows {
        return Err(ComputeError::InvalidShape("DeepSeek FP4 expert projection"));
    }
    Ok(DeepSeekV4Fp4Expert { w1, w3, w2 })
}

/// Number of weights in a matrix.
pub fn fp4_matvec_logical_values(spec: Fp4Matvec<'_>) -> (result: Result<usize, ComputeError>)
    ensures
        result == if spec.rows * spec.cols <= usize::MAX {
            Ok::<usize, ComputeError>((spec.rows * spec.cols) as usize)
        } else {
            Err(ComputeError::InvalidShape("DeepSeek FP4 matvec value count overflow"))
        },
{
    match spec.rows.checked_mul(spec.cols) {
        Some(values) => Ok(values),
        None => Err(ComputeError::InvalidShape("DeepSeek FP4 matvec value count overflow")),
    }
}

/// Number of weights in an expert.
pub open spec fn fp4_expert_values(expert: Fp4ExpertView) -> Result<usize, ComputeError> {
    let w1 = expert.w1.rows * expert.w1.cols;
    let w3 = expert.w3.rows * expert.w3.cols;
    let w2 = expert.w2.rows * expert.w2.cols;
    if w1 > usize::MAX || w3 > usize::MAX || w2 > usize::MAX {
        Err(ComputeError::InvalidShape("DeepSeek FP4 matvec value count overflow"))
    } else if w1 + w3 + w2 > usize::MAX {
        Err(ComputeError::InvalidShape("DeepSeek FP4 expert value count overflow"))
    } else {
        Ok((w1 + w3 + w2) as usize)
    }
}

/// Number of weights in an expert.
pub fn fp4_expert_logical_values(expert: DeepSeekV4Fp4Expert<'_>) -> (result: Result<
    usize,
    ComputeError,
>)
    ensures
        result == fp4_expert_values(expert@),
{
    let w1: usize = match fp4_matvec_logical_values(expert.w1) {
        Ok(values) => values,
        Err(error) => return Err(error),
    };
    let w3: usize = match fp4_matvec_logical_values(expert.w3) {
        Ok(values) => values,
        Err(error) => return Err(error),
    };
    let w2: usize = match fp4_matvec_logical_values(expert.w2) {
        Ok(values) => values,
        Err(error) => return Err(error),
    };
    match w1.checked_add(w3) {
        Some(sum) => match sum.checked_add(w2) {
            Some(total) => Ok(total),
            None => Err(ComputeError::InvalidShape("DeepSeek FP4 expert value count overflow")),
        },
        None => Err(ComputeError::InvalidShape("DeepSeek FP4 expert value count overflow")),
    }
}

/// Rows and columns of a matrix.
#[derive(Clone, Copy, Debug, PartialEq, Eq, Structural)]
pub struct MatrixShape {
    pub rows: usize,
    pub cols: usize,
}

impl MatrixShape {
    /// Number of elements.
    pub fn elements(self) -> (result: Result<usize, ComputeError>)
        ensures
            result == if self.rows * self.cols <= usize::MAX {
                Ok::<usize, ComputeError>((self.rows * self.cols) as usize)
            } else {
                Err(ComputeError::InvalidShape("matrix element count overflow"))
            },
    {
        match self.rows.checked_mul(self.cols) {
            Some(elements) => Ok(elements),
            None => Err(ComputeError::InvalidShape("matrix element count overflow")),
        }
    }
}

/// The shape of a tensor as a matrix.
pub open spec fn matrix_shape(t: TensorView) -> Result<MatrixShape, ComputeError> {
    if t.dims.len() != 2 {
        Err(ComputeError::InvalidShape("quant tensor must be rank-2 matrix"))
    } else {
        Ok(MatrixShape { rows: t.dims[0], cols: t.dims[1] })
    }
}

/// The shape of a tensor as a matrix.
pub fn tensor_matrix_shape(tensor: QuantTensorLayout<'_>) -> (result: Result<
    MatrixShape,
    ComputeError,
>)
    ensures
        result == matrix_shape(tensor@),
{
    if tensor.shape.rank() != 2 {
        return Err(ComputeError::InvalidShape("quant tensor must be rank-2 matrix"));
    }
    let (rows, cols): (usize, usize) = dims2(&tensor);
    Ok(MatrixShape { rows, cols })
}

/// A role whose tensors take part in a layer's computation.
pub open spec fn is_compute_role(role: TensorRole) -> bool {
    is_attention_role(role) || role == TensorRole::Router || role == TensorRole::GateProj || role
        == TensorRole::UpProj || role == TensorRole::DownProj || role == TensorRole::SharedExpert
}

/// A role of the attention projections.
pub open spec fn is_attention_role(role: TensorRole) -> bool {
    role == TensorRole::QkvProj || role == TensorRole::QProj || role == TensorRole::KProj || role
        == TensorRole::VProj || role == TensorRole::OProj || role == TensorRole::KvProj
}

/// Accepts tensors that take part in a layer's computation.
pub open spec fn computes() -> spec_fn(TensorView) -> bool {
    |t: TensorView| is_compute_role(t.role())
}

/// Accepts no tensor: a search with it meets every tensor.
pub open spec fn never() -> spec_fn(TensorView) -> bool {
    |t: TensorView| false
}

/// Does a block hold nothing that a layer computes with?
pub open spec fn non_compute(b: BlockView) -> Result<bool, ComputeError> {
    match b.unreadable() {
        Some(error) => Err(error),
        None => Ok(!b.any_before(b.count() as int, computes())),
    }
}

fn role_computes(role: TensorRole) -> (computes: bool)
    ensures
        computes == is_compute_role(role),
{
    match role {
        TensorRole::QkvProj
        | TensorRole::QProj
        | TensorRole::KProj
        | TensorRole::VProj
        | TensorRole::OProj
        | TensorRole::KvProj
        | TensorRole::Router
        | TensorRole::GateProj
        | TensorRole::UpProj
        | TensorRole::DownProj
        | TensorRole::SharedExpert => true,
        TensorRole::Embed
        | TensorRole::LmHead
        | TensorRole::Norm
        | TensorRole::Unknown => false,
    }
}

/// Does a dense block hold nothing that a layer computes with, such as the
/// block of the embedding?
pub fn is_non_compute_dense_block(dense: &[u8]) -> (result: Result<bool, ComputeError>)
    ensures
        match parsed_block(dense@) {
            Err(error) => result == Err::<bool, ComputeError>(error),
            Ok(block) => result == non_compute(block),
        },
{
    let layout = match parse_quant_block(dense) {
        Ok(layout) => layout,
        Err(error) => return Err(error),
    };
    let mut has_compute_tensor: bool = false;
    let count: usize = layout.tensor_count();
    let mut index: usize = 0;
    while index < count
        invariant
            parsed_block(dense@) == Ok::<BlockView, ComputeError>(layout@),
            count == layout@.count(),
            index <= count,
            has_compute_tensor == layout@.any_before(index as int, computes()),
            layout@.first(never()) == layout@.first_from(index as int, never()),
        decreases count - index,
    {
        let tensor = match layout.tensor(index) {
            Ok(tensor) => tensor,
            Err(error) => return Err(error),
        };
        assert(layout@.tensor(index as int) == Ok::<TensorView, ComputeError>(tensor@));
        if role_computes(tensor.role()) {
            has_compute_tensor = true;
        }
        proof {
            lemma_any_step(layout@, index as int, computes());
        }
        index += 1;
    }
    Ok(!has_compute_tensor)
}

proof fn lemma_any_step(b: BlockView, n: int, wanted: spec_fn(TensorView) -> bool)
    requires
        0 <= n,
        b.tensor(n) is Ok,
    ensures
        b.any_before(n + 1, wanted) == (b.any_before(n, wanted) || wanted(b.tensor(n)->Ok_0)),
{
    if b.any_before(n, wanted) {
        let i = choose|i: int|
            0 <= i < n && (#[trigger] b.tensor(i) matches Ok(tensor) && wanted(tensor));
        assert(0 <= i < n + 1 && (b.tensor(i) matches Ok(tensor) && wanted(tensor)));
    }
}

/// What a layer's dense block holds.
#[derive(Clone, Copy, Debug, PartialEq, Eq, Structural)]
pub struct DenseMathProfile {
    pub has_attention: bool,
    pub has_router: bool,
    pub has_shared_expert: bool,
    pub has_indexer: bool,
    pub norm_tensors: usize,
}

impl Default for DenseMathProfile {
    fn default() -> (profile: Self)
        ensures
            profile == (DenseMathProfile {
                has_attention: false,
                has_router: false,
                has_shared_expert: false,
                has_indexer: false,
                norm_tensors: 0,
            }),
    {
        DenseMathProfile {
            has_attention: false,
            has_router: false,
            has_shared_expert: false,
            has_indexer: false,
            norm_tensors: 0,
        }
    }
}

/// Accepts the attention projections.
pub open spec fn attends() -> spec_fn(TensorView) -> bool {
    |t: TensorView| is_attention_role(t.role())
}

/// Accepts tensors with `role`.
pub open spec fn with_role(role: TensorRole) -> spec_fn(TensorView) -> bool {
    |t: TensorView| t.role() == role
}

/// Accepts tensors of the sparse-attention indexer, by name.
pub open spec fn indexes() -> spec_fn(TensorView) -> bool {
    |t: TensorView|
        name_contains(t, "indexer.".spec_bytes()) || name_contains(t, ".indexer".spec_bytes())
}

/// What the first `n` tensors of a block say of it.
pub open spec fn profile_before(b: BlockView, n: int) -> DenseMathProfile {
    DenseMathProfile {
        has_attention: b.any_before(n, attends()),
        has_router: b.any_before(n, with_role(TensorRole::Router)),
        has_shared_expert: b.any_before(n, with_role(TensorRole::SharedExpert)),
        has_indexer: b.any_before(n, indexes()),
        norm_tensors: b.count_before(n, with_role(TensorRole::Norm)) as usize,
    }
}

/// What a block holds.
pub open spec fn dense_profile(b: BlockView) -> Result<DenseMathProfile, ComputeError> {
    match b.unreadable() {
        Some(error) => Err(error),
        None => Ok(profile_before(b, b.count() as int)),
    }
}

/// What a block holds.
pub fn dense_math_profile_from_layout(layout: &QuantBlockLayout<'_>) -> (result: Result<
    DenseMathProfile,
    ComputeError,
>)
    ensures
        result == dense_profile(layout@),
{
    let mut profile = DenseMathProfile::default();
    let count: usize = layout.tensor_count();
    let mut index: usize = 0;
    while index < count
        invariant
            count == layout@.count(),
            index <= count,
            profile == profile_before(layout@, index as int),
            profile.norm_tensors <= index,
            layout@.count_before(index as int, with_role(TensorRole::Norm)) <= index,
            layout@.first(never()) == layout@.first_from(index as int, never()),
        decreases count - index,
    {
        let tensor = match layout.tensor(index) {
            Ok(tensor) => tensor,
            Err(error) => return Err(error),
        };
        assert(layout@.tensor(index as int) == Ok::<TensorView, ComputeError>(tensor@));
        match tensor.role() {
            TensorRole::QkvProj
            | TensorRole::QProj
            | TensorRole::KProj
            | TensorRole::VProj
            | TensorRole::OProj
            | TensorRole::KvProj => {
                profile.has_attention = true;
            },
            TensorRole::Router => {
                profile.has_router = true;
            },
            TensorRole::SharedExpert => {
                profile.has_shared_expert = true;
            },
            TensorRole::Norm => {
                profile.norm_tensors = profile.norm_tensors + 1;
            },
            TensorRole::GateProj
            | TensorRole::UpProj
            | TensorRole::DownProj
            | TensorRole::Embed
            | TensorRole::LmHead
            | TensorRole::Unknown => {},
        }
        if lowered_name_contains(&tensor, "indexer.".as_bytes()) || lowered_name_contains(
            &tensor,
            ".indexer".as_bytes(),
        ) {
            profile.has_indexer = true;
        }
        proof {
            let n = index as int;
            lemma_any_step(layout@, n, attends());
            lemma_any_step(layout@, n, with_role(TensorRole::Router));
            lemma_any_step(layout@, n, with_role(TensorRole::SharedExpert));
            lemma_any_step(layout@, n, indexes());
        }
        index += 1;
    }
    Ok(profile)
}

/// What a dense block holds.
pub fn dense_math_profile(dense: &[u8]) -> (result: Result<DenseMathProfile, ComputeError>)
    ensures
        match parsed_block(dense@) {
            Err(error) => result == Err::<DenseMathProfile, ComputeError>(error),
            Ok(block) => result == dense_profile(block),
        },
{
    match parse_quant_block(dense) {
        Ok(layout) => dense_math_profile_from_layout(&layout),
        Err(error) => Err(error),
    }
}

/// A block with attention or a shared expert is a compute block.
pub proof fn law_profiled_blocks_compute(b: BlockView)
    ensures
        (dense_profile(b) matches Ok(profile) && (profile.has_attention || profile.has_router
            || profile.has_shared_expert)) ==> non_compute(b) == Ok::<bool, ComputeError>(false),
{
    let n = b.count() as int;
    if b.unreadable() is None {
        if b.any_before(n, attends()) {
            let i = choose|i: int|
                0 <= i < n && (#[trigger] b.tensor(i) matches Ok(tensor) && attends()(tensor));
            assert(b.tensor(i) matches Ok(tensor) && computes()(tensor));
        }
        if b.any_before(n, with_role(TensorRole::Router)) {
            let i = choose|i: int|
                0 <= i < n && (#[trigger] b.tensor(i) matches Ok(tensor) && with_role(
                    TensorRole::Router,
                )(tensor));
            assert(b.tensor(i) matches Ok(tensor) && computes()(tensor));
        }
        if b.any_before(n, with_role(TensorRole::SharedExpert)) {
            let i = choose|i: int|
                0 <= i < n && (#[trigger] b.tensor(i) matches Ok(tensor) && with_role(
                    TensorRole::SharedExpert,
                )(tensor));
            assert(b.tensor(i) matches Ok(tensor) && computes()(tensor));
        }
    }
}

/// Accepts FP8 weights of the shared expert.
pub open spec fn shared_fp8_weight() -> spec_fn(TensorView) -> bool {
    |t: TensorView|
        t.role() == TensorRole::SharedExpert && t.quant_format == QUANT_DEEPSEEK_FP8_E4M3
}

/// Accepts power-of-two scales of the shared expert.
pub open spec fn shared_fp8_scale() -> spec_fn(TensorView) -> bool {
    |t: TensorView|
        t.role() == TensorRole::SharedExpert && t.quant_format == QUANT_DEEPSEEK_UE8M0_SCALE
}

/// Does a block hold a shared expert in FP8, weights and scales?
pub open spec fn has_fp8_shared_expert(b: BlockView) -> Result<bool, ComputeError> {
    match b.unreadable() {
        Some(error) => Err(error),
        None => Ok(
            b.any_before(b.count() as int, shared_fp8_weight()) && b.any_before(
                b.count() as int,
                shared_fp8_scale(),
            ),
        ),
    }
}

/// Does a block hold a shared expert in FP8, weights and scales?
pub fn dense_block_contains_deepseek_fp8_shared_expert(layout: &QuantBlockLayout<'_>) -> (result:
    Result<bool, ComputeError>)
    ensures
        result == has_fp8_shared_expert(layout@),
{
    let mut has_weight: bool = false;
    let mut has_scale: bool = false;
    let count: usize = layout.tensor_count();
    let mut index: usize = 0;
    while index < count
        invariant
            count == layout@.count(),
            index <= count,
            has_weight == layout@.any_before(index as int, shared_fp8_weight()),
            has_scale == layout@.any_before(index as int, shared_fp8_scale()),
            layout@.first(never()) == layout@.first_from(index as int, never()),
        decreases count - index,
    {
        let tensor = match layout.tensor(index) {
            Ok(tensor) => tensor,
            Err(error) => return Err(error),
        };
        assert(layout@.tensor(index as int) == Ok::<TensorView, ComputeError>(tensor@));
        if tensor.role() == TensorRole::SharedExpert {
            if tensor.quant_format == QUANT_DEEPSEEK_FP8_E4M3 {
                has_weight = true;
            } else if tensor.quant_format == QUANT_DEEPSEEK_UE8M0_SCALE {
                has_scale = true;
            }
        }
        proof {
            lemma_any_step(layout@, index as int, shared_fp8_weight());
            lemma_any_step(layout@, index as int, shared_fp8_scale());
        }
        index += 1;
    }
    Ok(has_weight && has_scale)
}

/// Accepts the tensors that mark an FP4 expert.
pub open spec fn marks_fp4_expert() -> spec_fn(TensorView) -> bool {
    |t: TensorView|
        t.quant_format == QUANT_DEEPSEEK_FP4_E2M1_PACKED || t.quant_format
            == QUANT_DEEPSEEK_UE8M0_SCALE
}

/// Does a block hold an FP4 expert?
pub open spec fn has_fp4_expert(b: BlockView) -> Result<bool, ComputeError> {
    match b.first(marks_fp4_expert()) {
        Err(error) => Err(error),
        Ok(found) => Ok(found is Some),
    }
}

/// Does a block hold an FP4 expert?
pub fn quant_block_contains_deepseek_fp4_expert(layout: &QuantBlockLayout<'_>) -> (result: Result<
    bool,
    ComputeError,
>)
    ensures
        result == has_fp4_expert(layout@),
{
    let accepts = |t: &QuantTensorLayout<'_>| -> (taken: bool)
        ensures
            taken == marks_fp4_expert()(t@),
    {
        t.quant_format == QUANT_DEEPSEEK_FP4_E2M1_PACKED || t.quant_format
            == QUANT_DEEPSEEK_UE8M0_SCALE
    };
    match first_where(layout, accepts, Ghost(marks_fp4_expert())) {
        Ok(Some(_)) => Ok(true),
        Ok(None) => Ok(false),
        Err(error) => Err(error),
    }
}

proof fn lemma_only(
    b: BlockView,
    from: int,
    found: Option<TensorView>,
    wanted: spec_fn(TensorView) -> bool,
)
    requires
        0 <= from <= b.count(),
    ensures
        b.only_from(from, found, wanted) matches Ok(t) ==> match found {
            Some(before) => t == before && forall|j: int|
                from <= j < b.count() ==> (#[trigger] b.tensor(j)) is Ok && !wanted(
                    b.tensor(j)->Ok_0,
                ),
            None => exists|i: int|
                from <= i < b.count() && #[trigger] b.tensor(i) == Ok::<TensorView, ComputeError>(t)
                    && wanted(t) && forall|j: int|
                    from <= j < b.count() && j != i ==> (#[trigger] b.tensor(j)) is Ok && !wanted(
                        b.tensor(j)->Ok_0,
                    ),
        },
    decreases b.count() - from,
{
    if from < b.count() {
        if let Ok(tensor) = b.tensor(from) {
            if !wanted(tensor) {
                lemma_only(b, from + 1, found, wanted);
                if found is None && b.only_from(from, found, wanted) is Ok {
                    let t = b.only_from(from, found, wanted)->Ok_0;
                    let i = choose|i: int|
                        from + 1 <= i < b.count() && #[trigger] b.tensor(i) == Ok::<
                            TensorView,
                            ComputeError,
                        >(t) && wanted(t) && forall|j: int|
                            from + 1 <= j < b.count() && j != i ==> (#[trigger] b.tensor(j)) is Ok
                                && !wanted(b.tensor(j)->Ok_0);
                    assert(b.tensor(i) == Ok::<TensorView, ComputeError>(t));
                }
            } else if found is None {
                lemma_only(b, from + 1, Some(tensor), wanted);
            }
        }
    }
}

/// A tensor of an expert by the end of its name is the only one of the block
/// with that end: neither none nor two are accepted.
pub proof fn law_suffixes_name_one_tensor(b: BlockView, suffix: Seq<u8>)
    ensures
        b.only_with_suffix(suffix) matches Ok(t) ==> exists|i: int|
            0 <= i < b.count() && #[trigger] b.tensor(i) == Ok::<TensorView, ComputeError>(t)
                && ends_with_bytes(t.name, suffix) && forall|j: int|
                0 <= j < b.count() && j != i ==> (#[trigger] b.tensor(j)) is Ok && !ends_with_bytes(
                    b.tensor(j)->Ok_0.name,
                    suffix,
                ),
{
    lemma_only(b, 0, None, named_with_suffix(suffix));
}

/// The scale of a weight is the first tensor that is named like the weight, with
/// `.scale` in the place of `.weight`.
pub proof fn law_scales_are_named_like_their_weight(b: BlockView, weight: TensorView)
    ensures
        fp8_scale_of(b, weight) matches Ok(scale) ==> {
            &&& exists|stem: Seq<u8>|
                weight.name == #[trigger] (stem + ".weight".spec_bytes()) && scale.name == stem
                    + ".scale".spec_bytes()
            &&& exists|i: int|
                0 <= i < b.count() && #[trigger] b.tensor(i) == Ok::<TensorView, ComputeError>(
                    scale,
                ) && forall|j: int|
                    0 <= j < i ==> (#[trigger] b.tensor(j)) is Ok && b.tensor(j)->Ok_0.name
                        != scale.name
        },
{
    let suffix = ".weight".spec_bytes();
    if fp8_scale_of(b, weight) is Ok {
        let scale = fp8_scale_of(b, weight)->Ok_0;
        let stem = weight.name.take(weight.name.len() - suffix.len());
        let scale_name = stem + ".scale".spec_bytes();
        let wanted = |t: TensorView| t.name == scale_name;
        crate::compute::quant_block::law_search_finds_the_first(b, wanted);
        assert(b.first(wanted) == Ok::<Option<TensorView>, ComputeError>(Some(scale)));
        assert(weight.name =~= stem + suffix) by {
            assert(weight.name.subrange(weight.name.len() - suffix.len(), weight.name.len() as int)
                == suffix);
            assert forall|i: int|
                weight.name.len() - suffix.len() <= i
                    < weight.name.len() implies #[trigger] weight.name[i] == suffix[i - (
            weight.name.len() - suffix.len())] by {
                assert(weight.name.subrange(
                    weight.name.len() - suffix.len(),
                    weight.name.len() as int,
                )[i - (weight.name.len() - suffix.len())] == weight.name[i]);
            }
        }
        let i = choose|i: int|
            0 <= i < b.count() && #[trigger] b.tensor(i) == Ok::<TensorView, ComputeError>(scale)
                && wanted(scale) && b.passes_over(i, wanted);
        assert(b.tensor(i) == Ok::<TensorView, ComputeError>(scale));
        assert forall|j: int| 0 <= j < i implies (#[trigger] b.tensor(j)) is Ok && b.tensor(
            j,
        )->Ok_0.name != scale.name by {
            assert(!wanted(b.tensor(j)->Ok_0));
        }
    }
}

/// A router scores by a matrix of its role that is not its static table: the first with as many columns as a token has values, or, where none
/// has, the first of all.
pub proof fn law_gates_fit_the_input(b: BlockView, hidden_len: usize)
    ensures
        router_gate(b, hidden_len) matches Ok(Some(t)) ==> {
            &&& t.role() == TensorRole::Router
            &&& t.dims.len() == 2
            &&& !contains_bytes(lowered_name(t.name), "tid2eid".spec_bytes())
            &&& exists|i: int|
                0 <= i < b.count() && #[trigger] b.tensor(i) == Ok::<TensorView, ComputeError>(t)
            &&& t.dims[1] != hidden_len ==> b.passes_over(
                b.count() as int,
                gate_with_cols(hidden_len),
            )
        },
        router_gate(b, hidden_len) matches Ok(None) ==> b.passes_over(
            b.count() as int,
            gate_candidate(),
        ),
{
    crate::compute::quant_block::law_search_finds_the_first(b, gate_with_cols(hidden_len));
    crate::compute::quant_block::law_search_finds_the_first(b, gate_candidate());
}

/// A packed matrix has two weights to a byte: as many rows as the tensor, twice
/// as many columns, the tensor's bytes, and one row of scales to each row.
pub proof fn law_packed_matrices_hold_their_tensors(weight: TensorView, scale: TensorView)
    ensures
        fp4_matvec_of(weight, scale) matches Ok(m) ==> {
            &&& m.rows == weight.dims[0]
            &&& m.cols == 2 * weight.dims[1]
            &&& m.scale_cols == scale.dims[1]
            &&& scale.dims[0] == m.rows
            &&& m.packed_weight.len() == weight.dims[0] * weight.dims[1]
            &&& m.ue8m0_scales.len() == scale.dims[0] * scale.dims[1]
            &&& m.packed_weight.is_prefix_of(weight.data)
            &&& m.ue8m0_scales.is_prefix_of(scale.data)
        },
{
    if fp4_matvec_of(weight, scale) is Ok {
        let rows = weight.dims[0] as int;
        let cols = weight.dims[1] as int;
        let scale_cols = scale.dims[1] as int;
        assert(rows * cols >= 0 && rows * scale_cols >= 0) by (nonlinear_arith)
            requires
                rows >= 0,
                cols >= 0,
                scale_cols >= 0,
        ;
    }
}

/// The three matrices of an expert come from the tensors that are named for
/// them, each with its own scales: gating from `w1`, the way up from `w3`, the way
/// down from `w2`; the first two have the same shape, and the third takes
/// what they give.
pub proof fn law_expert_matrices_go_by_name(b: BlockView)
    ensures
        fp4_expert_in(b) matches Ok(expert) ==> {
            &&& b.only_with_suffix(".w1.weight".spec_bytes()) matches Ok(w) && (
            b.only_with_suffix(".w1.scale".spec_bytes()) matches Ok(s) && fp4_matvec_of(w, s)
                == Ok::<Fp4View, ComputeError>(expert.w1))
            &&& b.only_with_suffix(".w3.weight".spec_bytes()) matches Ok(w) && (
            b.only_with_suffix(".w3.scale".spec_bytes()) matches Ok(s) && fp4_matvec_of(w, s)
                == Ok::<Fp4View, ComputeError>(expert.w3))
            &&& b.only_with_suffix(".w2.weight".spec_bytes()) matches Ok(w) && (
            b.only_with_suffix(".w2.scale".spec_bytes()) matches Ok(s) && fp4_matvec_of(w, s)
                == Ok::<Fp4View, ComputeError>(expert.w2))
            &&& expert.w1.rows == expert.w3.rows
            &&& expert.w1.cols == expert.w3.cols
            &&& expert.w2.cols == expert.w1.rows
            &&& fp4_expert_values(expert) matches Ok(count) ==> count == expert.w1.rows
                * expert.w1.cols + expert.w3.rows * expert.w3.cols + expert.w2.rows
                * expert.w2.cols
        },
{
}

/// Accepts a tensor that could be read and is wanted.
pub open spec fn accepted(wanted: spec_fn(TensorView) -> bool) -> spec_fn(
    Result<TensorView, ComputeError>,
) -> bool {
    |t: Result<TensorView, ComputeError>| t is Ok && wanted(t->Ok_0)
}

proof fn lemma_count(b: BlockView, n: int, wanted: spec_fn(TensorView) -> bool)
    requires
        0 <= n,
    ensures
        b.count_before(n, wanted) == Seq::new(n as nat, |i: int| b.tensor(i)).filter(
            accepted(wanted),
        ).len(),
        b.count_before(n, wanted) <= n,
    decreases n,
{
    reveal(Seq::filter);
    let all = Seq::new(n as nat, |i: int| b.tensor(i));
    if n > 0 {
        lemma_count(b, n - 1, wanted);
        assert(all.drop_last() =~= Seq::new((n - 1) as nat, |i: int| b.tensor(i)));
    }
}

/// A block has what its profile says: a tensor of the router, a shared expert,
/// attention of any kind, and so many norms; and it computes exactly where some
/// tensor of it does.
pub proof fn law_profiles_report_roles(b: BlockView)
    ensures
        dense_profile(b) matches Ok(profile) ==> {
            &&& profile.has_router == exists|i: int|
                0 <= i < b.count() && (#[trigger] b.tensor(i) matches Ok(t) && t.role()
                    == TensorRole::Router)
            &&& profile.has_shared_expert == exists|i: int|
                0 <= i < b.count() && (#[trigger] b.tensor(i) matches Ok(t) && t.role()
                    == TensorRole::SharedExpert)
            &&& (exists|i: int|
                0 <= i < b.count() && (#[trigger] b.tensor(i) matches Ok(t) && (t.role()
                    == TensorRole::QProj || t.role() == TensorRole::KvProj || t.role()
                    == TensorRole::QkvProj || t.role() == TensorRole::OProj || t.role()
                    == TensorRole::KProj || t.role() == TensorRole::VProj)))
                == profile.has_attention
            &&& profile.norm_tensors == Seq::new(b.count() as nat, |i: int| b.tensor(i)).filter(
                |t: Result<TensorView, ComputeError>| t is Ok && t->Ok_0.role() == TensorRole::Norm,
            ).len()
        },
        non_compute(b) matches Ok(idle) ==> idle == !exists|i: int|
            0 <= i < b.count() && (#[trigger] b.tensor(i) matches Ok(t) && is_compute_role(
                t.role(),
            )),
{
    let n = b.count() as int;
    lemma_count(b, n, with_role(TensorRole::Norm));
    assert(accepted(with_role(TensorRole::Norm)) =~= (|t: Result<TensorView, ComputeError>|
        t is Ok && t->Ok_0.role() == TensorRole::Norm));
    assert(b.any_before(n, with_role(TensorRole::Router)) == exists|i: int|
        0 <= i < n && (#[trigger] b.tensor(i) matches Ok(t) && t.role() == TensorRole::Router));
    assert(b.any_before(n, with_role(TensorRole::SharedExpert)) == exists|i: int|
        0 <= i < n && (#[trigger] b.tensor(i) matches Ok(t) && t.role()
            == TensorRole::SharedExpert));
    assert(b.any_before(n, attends()) == exists|i: int|
        0 <= i < n && (#[trigger] b.tensor(i) matches Ok(t) && (t.role() == TensorRole::QProj
            || t.role() == TensorRole::KvProj || t.role() == TensorRole::QkvProj || t.role()
            == TensorRole::OProj || t.role() == TensorRole::KProj || t.role()
            == TensorRole::VProj)));
    assert(b.any_before(n, computes()) == exists|i: int|
        0 <= i < n && (#[trigger] b.tensor(i) matches Ok(t) && is_compute_role(t.role())));
}

/// What `fp8_scale_for_weight` finds: the tensor that is named like the weight, with
/// `.scale` in the place of `.weight`.
pub proof fn law_fp8_scale_for_weight(
    layout: &QuantBlockLayout<'_>,
    weight: QuantTensorLayout<'_>,
    scale: QuantTensorLayout<'_>,
)
    requires
        call_ensures(
            fp8_scale_for_weight,
            (layout, weight),
            Ok::<QuantTensorLayout<'_>, ComputeError>(scale),
        ),
    ensures
        exists|stem: Seq<u8>|
            weight@.name == #[trigger] (stem + ".weight".spec_bytes()) && scale@.name == stem
                + ".scale".spec_bytes(),
{
    law_scales_are_named_like_their_weight(layout@, weight@);
}

} // verus!
