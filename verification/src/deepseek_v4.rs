//! DeepSeek-V4-Flash: tensor names, weight encodings and expert shapes.

use crate::bytes::{
    bytes_contain, bytes_end_with, bytes_equal, bytes_start_with, bytes_to_lower,
};
use crate::floats::{bits_are_nan, bits_greater};
use crate::order::{number_order_key, rank_descending};
use vstd::prelude::*;

verus! {

use crate::bytes::{contains_bytes, ends_with_bytes, lower_bytes, starts_with_bytes};
use crate::floats::{
    exponent_field, fraction_field, greater, is_nan, is_negative, is_number, lemma_is_number,
    number_key,
};
use crate::order::ranked;
use vstd::arithmetic::power2::{lemma2_to64, lemma_pow2_adds, lemma_pow2_pos, pow2};
use vstd::string::StringSliceAdditionalSpecFns;

/// What a checkpoint tensor is for.
#[derive(Clone, Copy, Debug, PartialEq, Eq, Structural)]
pub enum DeepSeekV4TensorRole {
    Embed,
    LmHead,
    Norm,
    AttentionQ,
    AttentionKv,
    AttentionO,
    AttentionSink,
    Compressor,
    Indexer,
    Router,
    Expert,
    SharedExpert,
    MhcAttention,
    MhcFfn,
    MhcHead,
    Mtp,
    Unknown,
}

/// How a checkpoint tensor is stored.
#[derive(Clone, Copy, Debug, PartialEq, Eq, Structural)]
pub enum DeepSeekV4StorageKind {
    Fp8Dense,
    Fp4Expert,
    Bf16OrFp32Aux,
    Scale,
    Unknown,
}

pub const DEEPSEEK_V4_VOCAB_SIZE: usize = 129280;
pub const DEEPSEEK_V4_HIDDEN_SIZE: usize = 4096;
pub const DEEPSEEK_V4_EXPERT_INTERMEDIATE_SIZE: usize = 2048;
pub const DEEPSEEK_V4_LAYER_COUNT: usize = 43;
pub const DEEPSEEK_V4_ROUTED_EXPERTS: usize = 256;
pub const DEEPSEEK_V4_ACTIVE_EXPERTS: usize = 6;
pub const DEEPSEEK_V4_INDEX_TOPK: usize = 512;
pub const DEEPSEEK_V4_SLIDING_WINDOW: usize = 128;
pub const QUANT_DEEPSEEK_RAW_MIXED: u16 = 2400;
pub const QUANT_DEEPSEEK_FP8_E4M3: u16 = 2401;
pub const QUANT_DEEPSEEK_FP4_E2M1_PACKED: u16 = 2402;
pub const QUANT_DEEPSEEK_UE8M0_SCALE: u16 = 2403;
pub const QUANT_DEEPSEEK_BF16_AUX: u16 = 2404;
pub const QUANT_DEEPSEEK_F32_AUX: u16 = 2405;
pub const QUANT_DEEPSEEK_I64_AUX: u16 = 2406;

/// How one layer attends.
#[derive(Clone, Copy, Debug, PartialEq, Eq, Structural)]
pub struct DeepSeekV4AttentionPlan {
    pub sliding_window: usize,
    pub index_topk: usize,
    pub compress_ratio: usize,
    pub uses_indexer: bool,
    pub uses_compressor: bool,
}

/// How the hyper-connections are laid out.
#[derive(Clone, Copy, Debug, PartialEq, Eq, Structural)]
pub struct DeepSeekV4MhcPlan {
    pub hc_mult: usize,
    pub sinkhorn_iters: usize,
    pub has_attention_hc: bool,
    pub has_ffn_hc: bool,
    pub has_head_hc: bool,
}

/// The role that a tensor's name gives it. The tests are tried in this order.
pub open spec fn role_of_name(name: Seq<u8>) -> DeepSeekV4TensorRole {
    let lowered = lower_bytes(name);
    if lowered == "embed.weight".spec_bytes() || contains_bytes(
        lowered,
        "embed_tokens".spec_bytes(),
    ) {
        DeepSeekV4TensorRole::Embed
    } else if lowered == "head.weight".spec_bytes() || contains_bytes(
        lowered,
        "lm_head".spec_bytes(),
    ) {
        DeepSeekV4TensorRole::LmHead
    } else if lowered == "norm.weight".spec_bytes() {
        DeepSeekV4TensorRole::Norm
    } else if starts_with_bytes(lowered, "mtp.".spec_bytes()) {
        DeepSeekV4TensorRole::Mtp
    } else if starts_with_bytes(lowered, "hc_head_".spec_bytes()) {
        DeepSeekV4TensorRole::MhcHead
    } else if contains_bytes(lowered, ".hc_attn_".spec_bytes()) {
        DeepSeekV4TensorRole::MhcAttention
    } else if contains_bytes(lowered, ".hc_ffn_".spec_bytes()) {
        DeepSeekV4TensorRole::MhcFfn
    } else if ends_with_bytes(lowered, ".norm.weight".spec_bytes()) || contains_bytes(
        lowered,
        "_norm.weight".spec_bytes(),
    ) {
        DeepSeekV4TensorRole::Norm
    } else if contains_bytes(lowered, ".compressor.".spec_bytes()) {
        DeepSeekV4TensorRole::Compressor
    } else if contains_bytes(lowered, ".indexer.".spec_bytes()) {
        DeepSeekV4TensorRole::Indexer
    } else {
        match attention_role_of_name(lowered) {
            Some(role) => role,
            None => feed_forward_role_of_name(lowered),
        }
    }
}

/// The role inside an attention block, if the name lies in one and says which.
pub open spec fn attention_role_of_name(lowered: Seq<u8>) -> Option<DeepSeekV4TensorRole> {
    if !contains_bytes(lowered, ".attn.".spec_bytes()) {
        None
    } else if contains_bytes(lowered, "attn_sink".spec_bytes()) {
        Some(DeepSeekV4TensorRole::AttentionSink)
    } else if contains_bytes(lowered, ".wq_a.".spec_bytes()) || contains_bytes(
        lowered,
        ".wq_b.".spec_bytes(),
    ) {
        Some(DeepSeekV4TensorRole::AttentionQ)
    } else if contains_bytes(lowered, ".wkv.".spec_bytes()) {
        Some(DeepSeekV4TensorRole::AttentionKv)
    } else if contains_bytes(lowered, ".wo_a.".spec_bytes()) || contains_bytes(
        lowered,
        ".wo_b.".spec_bytes(),
    ) {
        Some(DeepSeekV4TensorRole::AttentionO)
    } else {
        None
    }
}

/// The role inside a feed-forward block.
pub open spec fn feed_forward_role_of_name(lowered: Seq<u8>) -> DeepSeekV4TensorRole {
    if contains_bytes(lowered, ".experts.".spec_bytes()) {
        DeepSeekV4TensorRole::Expert
    } else if contains_bytes(lowered, "shared_expert".spec_bytes()) {
        DeepSeekV4TensorRole::SharedExpert
    } else if contains_bytes(lowered, ".gate.".spec_bytes()) || contains_bytes(
        lowered,
        "router".spec_bytes(),
    ) || contains_bytes(lowered, ".tid2eid".spec_bytes()) {
        DeepSeekV4TensorRole::Router
    } else {
        DeepSeekV4TensorRole::Unknown
    }
}

/// The role that a tensor's name gives it.
pub fn classify_tensor_name(name: &str) -> (role: DeepSeekV4TensorRole)
    ensures
        role == role_of_name(name.spec_bytes()),
{
    let lowered: Vec<u8> = bytes_to_lower(name.as_bytes());
    if bytes_equal(&lowered, "embed.weight".as_bytes()) || bytes_contain(
        &lowered,
        "embed_tokens".as_bytes(),
    ) {
        return DeepSeekV4TensorRole::Embed;
    }
    if bytes_equal(&lowered, "head.weight".as_bytes()) || bytes_contain(
        &lowered,
        "lm_head".as_bytes(),
    ) {
        return DeepSeekV4TensorRole::LmHead;
    }
    if bytes_equal(&lowered, "norm.weight".as_bytes()) {
        return DeepSeekV4TensorRole::Norm;
    }
    if bytes_start_with(&lowered, "mtp.".as_bytes()) {
        return DeepSeekV4TensorRole::Mtp;
    }
    if bytes_start_with(&lowered, "hc_head_".as_bytes()) {
        return DeepSeekV4TensorRole::MhcHead;
    }
    if bytes_contain(&lowered, ".hc_attn_".as_bytes()) {
        return DeepSeekV4TensorRole::MhcAttention;
    }
    if bytes_contain(&lowered, ".hc_ffn_".as_bytes()) {
        return DeepSeekV4TensorRole::MhcFfn;
    }
    if bytes_end_with(&lowered, ".norm.weight".as_bytes()) || bytes_contain(
        &lowered,
        "_norm.weight".as_bytes(),
    ) {
        return DeepSeekV4TensorRole::Norm;
    }
    if bytes_contain(&lowered, ".compressor.".as_bytes()) {
        return DeepSeekV4TensorRole::Compressor;
    }
    if bytes_contain(&lowered, ".indexer.".as_bytes()) {
        return DeepSeekV4TensorRole::Indexer;
    }
    if bytes_contain(&lowered, ".attn.".as_bytes()) {
        if bytes_contain(&lowered, "attn_sink".as_bytes()) {
            return DeepSeekV4TensorRole::AttentionSink;
        }
        if bytes_contain(&lowered, ".wq_a.".as_bytes()) || bytes_contain(
            &lowered,
            ".wq_b.".as_bytes(),
        ) {
            return DeepSeekV4TensorRole::AttentionQ;
        }
        if bytes_contain(&lowered, ".wkv.".as_bytes()) {
            return DeepSeekV4TensorRole::AttentionKv;
        }
        if bytes_contain(&lowered, ".wo_a.".as_bytes()) || bytes_contain(
            &lowered,
            ".wo_b.".as_bytes(),
        ) {
            return DeepSeekV4TensorRole::AttentionO;
        }
    }
    if bytes_contain(&lowered, ".experts.".as_bytes()) {
        return DeepSeekV4TensorRole::Expert;
    }
    if bytes_contain(&lowered, "shared_expert".as_bytes()) {
        return DeepSeekV4TensorRole::SharedExpert;
    }
    if bytes_contain(&lowered, ".gate.".as_bytes()) || bytes_contain(&lowered, "router".as_bytes())
        || bytes_contain(&lowered, ".tid2eid".as_bytes()) {
        return DeepSeekV4TensorRole::Router;
    }
    DeepSeekV4TensorRole::Unknown
}

/// How a tensor with `role` and `name` is stored.
pub open spec fn storage_of(role: DeepSeekV4TensorRole, name: Seq<u8>) -> DeepSeekV4StorageKind {
    if ends_with_bytes(lower_bytes(name), ".scale".spec_bytes()) {
        DeepSeekV4StorageKind::Scale
    } else {
        match role {
            DeepSeekV4TensorRole::Expert
            | DeepSeekV4TensorRole::SharedExpert => DeepSeekV4StorageKind::Fp4Expert,
            DeepSeekV4TensorRole::AttentionQ
            | DeepSeekV4TensorRole::AttentionKv
            | DeepSeekV4TensorRole::AttentionO
            | DeepSeekV4TensorRole::Router
            | DeepSeekV4TensorRole::Compressor
            | DeepSeekV4TensorRole::Indexer
            | DeepSeekV4TensorRole::Embed
            | DeepSeekV4TensorRole::LmHead => DeepSeekV4StorageKind::Fp8Dense,
            DeepSeekV4TensorRole::Norm
            | DeepSeekV4TensorRole::AttentionSink
            | DeepSeekV4TensorRole::MhcAttention
            | DeepSeekV4TensorRole::MhcFfn
            | DeepSeekV4TensorRole::MhcHead
            | DeepSeekV4TensorRole::Mtp => DeepSeekV4StorageKind::Bf16OrFp32Aux,
            DeepSeekV4TensorRole::Unknown => DeepSeekV4StorageKind::Unknown,
        }
    }
}

/// How a tensor with `role` and `name` is stored.
pub fn storage_kind_for(role: DeepSeekV4TensorRole, name: &str) -> (kind: DeepSeekV4StorageKind)
    ensures
        kind == storage_of(role, name.spec_bytes()),
{
    let lowered: Vec<u8> = bytes_to_lower(name.as_bytes());
    if bytes_end_with(&lowered, ".scale".as_bytes()) {
        return DeepSeekV4StorageKind::Scale;
    }
    match role {
        DeepSeekV4TensorRole::Expert
        | DeepSeekV4TensorRole::SharedExpert => DeepSeekV4StorageKind::Fp4Expert,
        DeepSeekV4TensorRole::AttentionQ
        | DeepSeekV4TensorRole::AttentionKv
        | DeepSeekV4TensorRole::AttentionO
        | DeepSeekV4TensorRole::Router
        | DeepSeekV4TensorRole::Compressor
        | DeepSeekV4TensorRole::Indexer
        | DeepSeekV4TensorRole::Embed
        | DeepSeekV4TensorRole::LmHead => DeepSeekV4StorageKind::Fp8Dense,
        DeepSeekV4TensorRole::Norm
        | DeepSeekV4TensorRole::AttentionSink
        | DeepSeekV4TensorRole::MhcAttention
        | DeepSeekV4TensorRole::MhcFfn
        | DeepSeekV4TensorRole::MhcHead
        | DeepSeekV4TensorRole::Mtp => DeepSeekV4StorageKind::Bf16OrFp32Aux,
        DeepSeekV4TensorRole::Unknown => DeepSeekV4StorageKind::Unknown,
    }
}

/// An FP8 E4M3 byte in units of 2^-9: sign, four exponent bits, three mantissa
/// bits; the all-ones patterns are ordinary numbers.
pub open spec fn fp8_units(byte: u8) -> int {
    let exponent = (byte / 8 % 16) as int;
    let mantissa = (byte % 8) as int;
    let size: int = if exponent == 0 {
        mantissa
    } else {
        (8 + mantissa) * pow2((exponent - 1) as nat)
    };
    if byte >= 128 {
        -size
    } else {
        size
    }
}

/// An FP4 E2M1 nibble in units of 2^-3: sign, two exponent bits, one mantissa
/// bit.
pub open spec fn fp4_units(nibble: u8) -> int {
    let exponent = (nibble / 2 % 4) as int;
    let mantissa = (nibble % 2) as int;
    let size: int = if exponent == 0 {
        mantissa
    } else {
        (2 + mantissa) * pow2((exponent + 1) as nat)
    };
    if nibble % 16 >= 8 {
        -size
    } else {
        size
    }
}

/// The single-precision pattern of an FP8 E4M3 byte, field by field.
pub open spec fn fp8_bits(byte: u8) -> u32 {
    let exponent = byte / 8 % 16;
    let mantissa = byte % 8;
    let sign: int = if byte >= 128 {
        2147483648
    } else {
        0
    };
    (if exponent > 0 {
        sign + (exponent + 120) * 8388608 + mantissa * 1048576
    } else if mantissa == 0 {
        0
    } else if mantissa == 1 {
        sign + 118 * 8388608
    } else if mantissa < 4 {
        sign + 119 * 8388608 + (mantissa - 2) * 4194304
    } else {
        sign + 120 * 8388608 + (mantissa - 4) * 2097152
    }) as u32
}

proof fn lemma_fp8_bits(byte: u8)
    ensures
        is_number(fp8_bits(byte), fp8_units(byte), -9),
{
    lemma2_to64();
    let exponent = (byte / 8 % 16) as int;
    let m = (byte % 8) as int;
    let bits = fp8_bits(byte);
    let units = fp8_units(byte);
    if exponent > 0 {
        let low = pow2((exponent - 1) as nat) as int;
        let high = pow2((21 - exponent) as nat) as int;
        lemma_pow2_pos((exponent - 1) as nat);
        assert(low * high == 1048576) by {
            lemma_pow2_adds((exponent - 1) as nat, (21 - exponent) as nat);
        }
        assert(((8 + m) * low) * high == (8 + m) * (low * high)) by (nonlinear_arith);
        assert((8 + m) * low > 0) by (nonlinear_arith)
            requires
                m >= 0,
                low >= 1,
        ;
        lemma_is_number(bits, units, -9, (8 + m) * low, high as nat);
    } else if m == 0 {
    } else if m == 1 {
        lemma_is_number(bits, units, -9, m, 8388608);
    } else if m < 4 {
        lemma_is_number(bits, units, -9, m, 4194304);
    } else {
        lemma_is_number(bits, units, -9, m, 2097152);
    }
}

/// The single-precision pattern of an FP8 E4M3 byte.
pub fn decode_fp8_e4m3(byte: u8) -> (bits: u32)
    ensures
        bits == fp8_bits(byte),
        is_number(bits, fp8_units(byte), -9),
{
    proof {
        lemma_fp8_bits(byte);
    }
    let exponent: u32 = (byte / 8 % 16) as u32;
    let mantissa: u32 = (byte % 8) as u32;
    let sign: u32 = if byte >= 128 {
        2147483648
    } else {
        0
    };
    if exponent > 0 {
        sign + (exponent + 120) * 8388608 + mantissa * 1048576
    } else if mantissa == 0 {
        0
    } else if mantissa == 1 {
        sign + 118 * 8388608
    } else if mantissa < 4 {
        sign + 119 * 8388608 + (mantissa - 2) * 4194304
    } else {
        sign + 120 * 8388608 + (mantissa - 4) * 2097152
    }
}

/// The single-precision pattern of a power-of-two scale byte: 2^(byte - 127),
/// zero for 0, and infinity for 255.
pub fn decode_ue8m0_scale(byte: u8) -> (bits: u32)
    ensures
        bits == byte * 8388608,
        !is_negative(bits),
        exponent_field(bits) == byte,
        fraction_field(bits) == 0,
{
    (byte as u32) * 8388608
}

/// The single-precision pattern of an FP4 E2M1 nibble (the low four bits).
pub fn decode_fp4_e2m1(nibble: u8) -> (bits: u32)
    ensures
        bits == FP4_E2M1_BASE_LUT@[(nibble % 16) as int],
        is_number(bits, fp4_units((nibble % 16) as u8), -3),
{
    proof {
        lemma2_to64();
    }
    let nibble: u8 = nibble % 16;
    let exponent: u32 = (nibble / 2 % 4) as u32;
    let mantissa: u32 = (nibble % 2) as u32;
    let sign: u32 = if nibble >= 8 {
        2147483648
    } else {
        0
    };
    let bits: u32 = if exponent > 0 {
        sign + (exponent + 126) * 8388608 + mantissa * 4194304
    } else if mantissa == 0 {
        0
    } else {
        sign + 124 * 8388608
    };
    proof {
        let units = fp4_units(nibble);
        let m = mantissa as int;
        if exponent > 0 {
            let low = pow2((exponent + 1) as nat) as int;
            let high = pow2((21 - exponent) as nat) as int;
            lemma_pow2_pos((exponent + 1) as nat);
            assert(low * high == 4194304) by {
                lemma_pow2_adds((exponent + 1) as nat, (21 - exponent) as nat);
            }
            assert(((2 + m) * low) * high == (2 + m) * (low * high)) by (nonlinear_arith);
            assert((2 + m) * low > 0) by (nonlinear_arith)
                requires
                    m >= 0,
                    low >= 1,
            ;
            lemma_is_number(bits, units, -3, (2 + m) * low, high as nat);
        } else if mantissa > 0 {
            lemma_is_number(bits, units, -3, 1, 8388608);
        }
    }
    bits
}

/// The patterns of the sixteen FP4 E2M1 nibbles, in order.
pub const FP4_E2M1_BASE_LUT: [u32; 16] = [
    0,
    0x3e000000,
    0x3f800000,
    0x3fc00000,
    0x40000000,
    0x40400000,
    0x40800000,
    0x40c00000,
    0,
    0xbe000000,
    0xbf800000,
    0xbfc00000,
    0xc0000000,
    0xc0400000,
    0xc0800000,
    0xc0c00000,
];

/// The patterns of all FP8 E4M3 bytes.
pub fn fp8_e4m3_base_lut() -> (lut: [u32; 256])
    ensures
        forall|byte: int| 0 <= byte < 256 ==> #[trigger] lut@[byte] == fp8_bits(byte as u8),
{
    let mut lut: [u32; 256] = [0u32; 256];
    let mut byte: usize = 0;
    while byte < 256
        invariant
            byte <= 256,
            forall|b: int| 0 <= b < byte ==> #[trigger] lut@[b] == fp8_bits(b as u8),
        decreases 256 - byte,
    {
        lut[byte] = decode_fp8_e4m3(byte as u8);
        byte += 1;
    }
    lut
}

/// The patterns of all power-of-two scale bytes.
pub fn ue8m0_scale_lut() -> (lut: [u32; 256])
    ensures
        forall|byte: int| 0 <= byte < 256 ==> #[trigger] lut@[byte] == byte * 8388608,
{
    let mut lut: [u32; 256] = [0u32; 256];
    let mut byte: usize = 0;
    while byte < 256
        invariant
            byte <= 256,
            forall|b: int| 0 <= b < byte ==> #[trigger] lut@[b] == b * 8388608,
        decreases 256 - byte,
    {
        lut[byte] = decode_ue8m0_scale(byte as u8);
        byte += 1;
    }
    lut
}

/// Nibble `index` of packed bytes, low nibble first.
pub open spec fn nibble_at(bytes: Seq<u8>, index: int) -> u8 {
    if index % 2 == 0 {
        bytes[index / 2] % 16
    } else {
        bytes[index / 2] / 16
    }
}

/// The two numbers of a packed byte, low nibble first.
pub fn unpack_fp4_pair(byte: u8) -> (pair: (u32, u32))
    ensures
        pair.0 == FP4_E2M1_BASE_LUT@[(byte % 16) as int],
        pair.1 == FP4_E2M1_BASE_LUT@[(byte / 16) as int],
{
    (decode_fp4_e2m1(byte % 16), decode_fp4_e2m1(byte / 16))
}

/// Decodes FP8 bytes into `out` until either runs out; returns how many.
pub fn unpack_fp8_e4m3_slice(bytes: &[u8], out: &mut [u32]) -> (count: usize)
    ensures
        count == if bytes@.len() <= old(out)@.len() {
            bytes@.len()
        } else {
            old(out)@.len()
        },
        final(out)@.len() == old(out)@.len(),
        forall|i: int| 0 <= i < count ==> #[trigger] final(out)@[i] == fp8_bits(bytes@[i]),
        forall|i: int| count <= i < old(out)@.len() ==> #[trigger] final(out)@[i] == old(out)@[i],
{
    let count: usize = if bytes.len() <= out.len() {
        bytes.len()
    } else {
        out.len()
    };
    let mut i: usize = 0;
    while i < count
        invariant
            i <= count <= bytes@.len(),
            count <= out@.len(),
            out@.len() == old(out)@.len(),
            forall|j: int| 0 <= j < i ==> #[trigger] out@[j] == fp8_bits(bytes@[j]),
            forall|j: int| i <= j < out@.len() ==> #[trigger] out@[j] == old(out)@[j],
        decreases count - i,
    {
        out[i] = decode_fp8_e4m3(bytes[i]);
        i += 1;
    }
    count
}

/// Decodes packed FP4 nibbles into `out` until either runs out; returns how
/// many.
pub fn unpack_fp4_e2m1_packed_slice(bytes: &[u8], out: &mut [u32]) -> (count: usize)
    ensures
        count == if 2 * bytes@.len() <= old(out)@.len() {
            2 * bytes@.len()
        } else {
            old(out)@.len()
        },
        final(out)@.len() == old(out)@.len(),
        forall|i: int|
            0 <= i < count ==> #[trigger] final(out)@[i] == FP4_E2M1_BASE_LUT@[nibble_at(
                bytes@,
                i,
            ) as int],
        forall|i: int| count <= i < old(out)@.len() ==> #[trigger] final(out)@[i] == old(out)@[i],
{
    let mut written: usize = 0;
    let mut at: usize = 0;
    while at < bytes.len() && written < out.len()
        invariant
            at <= bytes@.len(),
            written <= out.len(),
            out@.len() == old(out)@.len(),
            written == 2 * at || (written == out@.len() && written < 2 * at),
            written == 2 * at || at <= bytes@.len(),
            forall|j: int|
                0 <= j < written ==> #[trigger] out@[j] == FP4_E2M1_BASE_LUT@[nibble_at(
                    bytes@,
                    j,
                ) as int],
            forall|j: int| written <= j < out@.len() ==> #[trigger] out@[j] == old(out)@[j],
        decreases bytes@.len() - at,
    {
        let byte: u8 = bytes[at];
        out[written] = decode_fp4_e2m1(byte % 16);
        written += 1;
        if written < out.len() {
            out[written] = decode_fp4_e2m1(byte / 16);
            written += 1;
        }
        at += 1;
    }
    written
}

/// Why an expert kernel was refused.
#[derive(Clone, Copy, Debug, PartialEq, Eq, Structural)]
pub enum DeepSeekV4KernelError {
    EmptyShape,
    InvalidShape,
    PackedWeightTooSmall,
    ScaleTooSmall,
    InputTooSmall,
    OutputTooSmall,
    ScratchTooSmall,
    NonFiniteOutput,
}

/// A matrix of FP4 weights, two to a byte, with a power-of-two scale for every
/// `cols / scale_cols` weights of a row.
#[derive(Clone, Copy, Debug)]
pub struct Fp4Matvec<'a> {
    pub packed_weight: &'a [u8],
    pub ue8m0_scales: &'a [u8],
    pub rows: usize,
    pub cols: usize,
    pub scale_cols: usize,
}

/// What a matrix of FP4 weights holds.
#[verifier::ext_equal]
pub struct Fp4View {
    pub packed_weight: Seq<u8>,
    pub ue8m0_scales: Seq<u8>,
    pub rows: usize,
    pub cols: usize,
    pub scale_cols: usize,
}

impl<'a> View for Fp4Matvec<'a> {
    type V = Fp4View;

    open spec fn view(&self) -> Fp4View {
        Fp4View {
            packed_weight: self.packed_weight@,
            ue8m0_scales: self.ue8m0_scales@,
            rows: self.rows,
            cols: self.cols,
            scale_cols: self.scale_cols,
        }
    }
}

/// The three matrices of one expert: gate, up and down.
#[derive(Clone, Copy, Debug)]
pub struct DeepSeekV4Fp4Expert<'a> {
    pub w1: Fp4Matvec<'a>,
    pub w3: Fp4Matvec<'a>,
    pub w2: Fp4Matvec<'a>,
}

/// What an expert holds.
#[verifier::ext_equal]
pub struct Fp4ExpertView {
    pub w1: Fp4View,
    pub w3: Fp4View,
    pub w2: Fp4View,
}

impl<'a> View for DeepSeekV4Fp4Expert<'a> {
    type V = Fp4ExpertView;

    open spec fn view(&self) -> Fp4ExpertView {
        Fp4ExpertView { w1: self.w1@, w3: self.w3@, w2: self.w2@ }
    }
}

/// Scratch that one expert's forward pass needs.
pub fn deepseek_v4_fp4_expert_scratch_len(intermediate_size: usize) -> (len: usize)
    requires
        2 * intermediate_size <= usize::MAX,
    ensures
        len == 2 * intermediate_size,
{
    intermediate_size * 2
}

/// Bytes that a row of `cols` nibbles takes.
pub fn packed_row_bytes(cols: usize) -> (bytes: usize)
    ensures
        bytes == (cols + 1) / 2,
{
    cols / 2 + cols % 2
}

impl Fp4View {
    /// Does the matrix fit an input and an output of these lengths, and if
    /// not, why?
    pub open spec fn check(self, input_len: int, output_len: int) -> Result<
        (),
        DeepSeekV4KernelError,
    > {
        if self.rows == 0 || self.cols == 0 || self.scale_cols == 0 {
            Err(DeepSeekV4KernelError::EmptyShape)
        } else if input_len < self.cols {
            Err(DeepSeekV4KernelError::InputTooSmall)
        } else if output_len < self.rows {
            Err(DeepSeekV4KernelError::OutputTooSmall)
        } else if self.cols % self.scale_cols != 0 {
            Err(DeepSeekV4KernelError::InvalidShape)
        } else if self.rows * ((self.cols + 1) / 2) > usize::MAX {
            Err(DeepSeekV4KernelError::InvalidShape)
        } else if self.packed_weight.len() < self.rows * ((self.cols + 1) / 2) {
            Err(DeepSeekV4KernelError::PackedWeightTooSmall)
        } else if self.rows * self.scale_cols > usize::MAX {
            Err(DeepSeekV4KernelError::InvalidShape)
        } else if self.ue8m0_scales.len() < self.rows * self.scale_cols {
            Err(DeepSeekV4KernelError::ScaleTooSmall)
        } else {
            Ok(())
        }
    }

    /// The weight at `row` and `col`, as a nibble.
    pub open spec fn nibble(self, row: int, col: int) -> u8 {
        nibble_at(self.packed_weight.skip(row * ((self.cols + 1) / 2)), col)
    }

    /// The scale byte of the weight at `row` and `col`.
    pub open spec fn scale(self, row: int, col: int) -> u8 {
        self.ue8m0_scales[row * self.scale_cols + col / (self.cols as int
            / self.scale_cols as int)]
    }
}

/// Does `spec` fit an input and an output of these lengths?
pub fn validate_fp4_matvec(spec: Fp4Matvec<'_>, input_len: usize, output_len: usize) -> (result:
    Result<(), DeepSeekV4KernelError>)
    ensures
        result == spec@.check(input_len as int, output_len as int),
{
    if spec.rows == 0 || spec.cols == 0 || spec.scale_cols == 0 {
        return Err(DeepSeekV4KernelError::EmptyShape);
    }
    if input_len < spec.cols {
        return Err(DeepSeekV4KernelError::InputTooSmall);
    }
    if output_len < spec.rows {
        return Err(DeepSeekV4KernelError::OutputTooSmall);
    }
    if spec.cols % spec.scale_cols != 0 {
        return Err(DeepSeekV4KernelError::InvalidShape);
    }
    let required_weight: usize = match spec.rows.checked_mul(packed_row_bytes(spec.cols)) {
        Some(bytes) => bytes,
        None => return Err(DeepSeekV4KernelError::InvalidShape),
    };
    if spec.packed_weight.len() < required_weight {
        return Err(DeepSeekV4KernelError::PackedWeightTooSmall);
    }
    let required_scales: usize = match spec.rows.checked_mul(spec.scale_cols) {
        Some(bytes) => bytes,
        None => return Err(DeepSeekV4KernelError::InvalidShape),
    };
    if spec.ue8m0_scales.len() < required_scales {
        return Err(DeepSeekV4KernelError::ScaleTooSmall);
    }
    Ok(())
}

proof fn lemma_row_fits(rows: int, width: int, row: int, col: int)
    requires
        0 <= row < rows,
        0 <= col < width,
    ensures
        0 <= row * width,
        row * width + col < rows * width,
        row * width + width <= rows * width,
{
    assert(0 <= row * width) by (nonlinear_arith)
        requires
            0 <= row,
            0 <= width,
    ;
    assert(row * width + width <= rows * width) by (nonlinear_arith)
        requires
            row + 1 <= rows,
            0 <= width,
    ;
}

proof fn lemma_group_below(cols: int, groups: int, col: int)
    requires
        groups > 0,
        cols % groups == 0,
        0 <= col < cols,
    ensures
        cols / groups > 0,
        groups * (cols / groups) == cols,
        0 <= col / (cols / groups) < groups,
{
    let width = cols / groups;
    vstd::arithmetic::div_mod::lemma_fundamental_div_mod(cols, groups);
    assert(width > 0) by (nonlinear_arith)
        requires
            groups * width == cols,
            cols > 0,
            groups > 0,
    ;
    assert(0 <= col / width) by (nonlinear_arith)
        requires
            0 <= col,
            width > 0,
    ;
    assert(col / width < groups) by (nonlinear_arith)
        requires
            0 <= col < groups * width,
            width > 0,
    ;
}

/// The weight at `row` and `col`: the pattern of its FP4 number and that of
/// its scale.
pub fn fp4_weight_at(spec: Fp4Matvec<'_>, row: usize, col: usize) -> (weight: (u32, u32))
    requires
        spec@.check(spec.cols as int, spec.rows as int) is Ok,
        row < spec.rows,
        col < spec.cols,
    ensures
        weight.0 == FP4_E2M1_BASE_LUT@[spec@.nibble(row as int, col as int) as int],
        weight.1 == spec@.scale(row as int, col as int) * 8388608,
{
    let row_bytes: usize = packed_row_bytes(spec.cols);
    proof {
        lemma_row_fits(spec.rows as int, row_bytes as int, row as int, col as int / 2);
        lemma_group_below(spec.cols as int, spec.scale_cols as int, col as int);
        lemma_row_fits(
            spec.rows as int,
            spec.scale_cols as int,
            row as int,
            col as int / (spec.cols as int / spec.scale_cols as int),
        );
    }
    let packed: u8 = spec.packed_weight[row * row_bytes + col / 2];
    let nibble: u8 = if col % 2 == 0 {
        packed % 16
    } else {
        packed / 16
    };
    let group_cols: usize = spec.cols / spec.scale_cols;
    let scale: u8 = spec.ue8m0_scales[row * spec.scale_cols + col / group_cols];
    (decode_fp4_e2m1(nibble), decode_ue8m0_scale(scale))
}

/// One group of a row of FP4 weights: the weights that share a scale.
#[derive(Clone, Copy, Debug, PartialEq, Eq, Structural)]
pub struct Fp4Group {
    pub scale_bits: u32,
    pub weight_start: usize,
    pub weight_bytes: usize,
    pub col_start: usize,
    pub col_count: usize,
}

/// Can the rows be read group by group, whole bytes at a time?
pub fn fp4_rows_split_into_groups(spec: Fp4Matvec<'_>) -> (split: bool)
    requires
        spec.scale_cols > 0,
    ensures
        split == (spec.cols % 2 == 0 && (spec.cols as int / spec.scale_cols as int) % 2 == 0),
{
    spec.cols % 2 == 0 && (spec.cols / spec.scale_cols) % 2 == 0
}

/// Group `group` of row `row`.
pub fn fp4_row_group(spec: Fp4Matvec<'_>, row: usize, group: usize) -> (part: Fp4Group)
    requires
        spec@.check(spec.cols as int, spec.rows as int) is Ok,
        spec.cols % 2 == 0,
        (spec.cols as int / spec.scale_cols as int) % 2 == 0,
        row < spec.rows,
        group < spec.scale_cols,
    ensures
        ({
            let width = spec.cols as int / spec.scale_cols as int;
            &&& part.scale_bits == spec@.scale(row as int, group * width) * 8388608
            &&& part.col_start == group * width
            &&& part.col_count == width
            &&& part.weight_start == row * (spec.cols as int / 2) + group * (width / 2)
            &&& part.weight_bytes == width / 2
            &&& part.weight_start + part.weight_bytes <= spec.packed_weight@.len()
            &&& part.col_start + part.col_count <= spec.cols
        }),
{
    let ghost rows = spec.rows as int;
    let ghost groups = spec.scale_cols as int;
    let ghost cols = spec.cols as int;
    let group_cols: usize = spec.cols / spec.scale_cols;
    let ghost width = group_cols as int;
    proof {
        lemma_group_below(cols, groups, 0);
        lemma_row_fits(groups, width, group as int, 0);
        lemma_row_fits(rows, groups, row as int, group as int);
        assert(groups * width == cols);
        assert(groups * (width / 2) == cols / 2) by (nonlinear_arith)
            requires
                groups * width == cols,
                width % 2 == 0,
                cols % 2 == 0,
        ;
        lemma_row_fits(groups, width / 2, group as int, 0);
        lemma_row_fits(rows, cols / 2, row as int, 0);
        assert((group * width) / width == group) by (nonlinear_arith)
            requires
                width > 0,
        ;
    }
    let half: usize = group_cols / 2;
    Fp4Group {
        scale_bits: decode_ue8m0_scale(spec.ue8m0_scales[row * spec.scale_cols + group]),
        weight_start: row * (spec.cols / 2) + group * half,
        weight_bytes: half,
        col_start: group * group_cols,
        col_count: group_cols,
    }
}

impl Fp4ExpertView {
    /// Does the expert fit buffers of these lengths, and if not, why? The
    /// shapes of the three matrices come first, then each matrix in the order
    /// in which it is used.
    pub open spec fn check(self, input_len: int, output_len: int, scratch_len: int) -> Result<
        (),
        DeepSeekV4KernelError,
    > {
        if self.w1.cols != input_len || self.w3.cols != input_len || self.w1.rows != self.w3.rows
            || self.w2.cols != self.w1.rows {
            Err(DeepSeekV4KernelError::InvalidShape)
        } else if output_len < self.w2.rows {
            Err(DeepSeekV4KernelError::OutputTooSmall)
        } else if scratch_len < 2 * self.w1.rows {
            Err(DeepSeekV4KernelError::ScratchTooSmall)
        } else {
            match self.w1.check(input_len, self.w1.rows as int) {
                Err(error) => Err(error),
                Ok(()) => match self.w3.check(input_len, self.w1.rows as int) {
                    Err(error) => Err(error),
                    Ok(()) => self.w2.check(self.w1.rows as int, output_len),
                },
            }
        }
    }
}

/// Does `expert` fit an input, an output and a scratch buffer of these
/// lengths?
pub fn validate_fp4_expert(
    expert: DeepSeekV4Fp4Expert<'_>,
    input_len: usize,
    output_len: usize,
    scratch_len: usize,
) -> (result: Result<(), DeepSeekV4KernelError>)
    ensures
        result == expert@.check(input_len as int, output_len as int, scratch_len as int),
{
    if expert.w1.cols != input_len || expert.w3.cols != input_len || expert.w1.rows
        != expert.w3.rows || expert.w2.cols != expert.w1.rows {
        return Err(DeepSeekV4KernelError::InvalidShape);
    }
    if output_len < expert.w2.rows {
        return Err(DeepSeekV4KernelError::OutputTooSmall);
    }
    if scratch_len / 2 < expert.w1.rows {
        return Err(DeepSeekV4KernelError::ScratchTooSmall);
    }
    match validate_fp4_matvec(expert.w1, input_len, expert.w1.rows) {
        Ok(()) => {},
        Err(error) => return Err(error),
    }
    match validate_fp4_matvec(expert.w3, input_len, expert.w1.rows) {
        Ok(()) => {},
        Err(error) => return Err(error),
    }
    validate_fp4_matvec(expert.w2, expert.w1.rows, output_len)
}

/// Threads for row-parallel kernels: the configured number, or two fewer than
/// the machine offers; at least one.
pub fn compute_thread_count(configured: Option<usize>, available: Option<usize>) -> (count: usize)
    ensures
        count >= 1,
        match (configured, available) {
            (Some(n), _) => n >= 1 ==> count == n,
            (None, Some(n)) => n >= 3 ==> count == n - 2,
            (None, None) => true,
        },
        (match (configured, available) {
            (Some(n), _) => n == 0,
            (None, Some(n)) => n < 3,
            (None, None) => true,
        }) ==> count == 1,
{
    match configured {
        Some(n) => if n == 0 {
            1
        } else {
            n
        },
        None => match available {
            Some(n) => if n < 3 {
                1
            } else {
                n - 2
            },
            None => 1,
        },
    }
}

/// Rows that one thread takes.
pub open spec fn chunk_rows(rows: int, min_rows_per_thread: int, threads: int) -> int {
    let min_rows = if min_rows_per_thread < 1 {
        1
    } else {
        min_rows_per_thread
    };
    let share = (rows + threads - 1) / threads;
    if threads <= 1 || rows < 2 * min_rows {
        rows
    } else if share < min_rows {
        min_rows
    } else {
        share
    }
}

/// `chunks` cuts `rows` rows into pieces of `size`, `(first, count)` each, the
/// last one as short as it has to be. No rows make one empty piece.
pub open spec fn cuts(chunks: Seq<(usize, usize)>, rows: int, size: int) -> bool {
    &&& rows == 0 ==> chunks == seq![(0usize, 0usize)]
    &&& rows > 0 ==> size > 0 && chunks.len() == (rows + size - 1) / size
    &&& rows > 0 ==> forall|i: int|
        0 <= i < chunks.len() ==> {
            let chunk = #[trigger] chunks[i];
            &&& chunk.0 == i * size
            &&& chunk.1 == if rows - i * size < size {
                rows - i * size
            } else {
                size
            }
        }
}

/// Cuts `rows` rows into pieces of `step`.
pub(crate) fn cut_rows(rows: usize, step: usize) -> (chunks: Vec<(usize, usize)>)
    requires
        rows > 0 ==> step > 0,
    ensures
        cuts(chunks@, rows as int, step as int),
{
    let mut chunks: Vec<(usize, usize)> = Vec::new();
    if rows == 0 {
        chunks.push((0, 0));
        proof {
            assert(chunks@ =~= seq![(0usize, 0usize)]);
        }
        return chunks;
    }
    let ghost size = step as int;
    let mut first: usize = 0;
    proof {
        assert(chunks@.len() * size == 0) by (nonlinear_arith)
            requires
                chunks@.len() == 0,
        ;
    }
    while first < rows
        invariant
            first <= rows,
            step == size,
            step > 0,
            rows > 0,
            first == rows || first == chunks@.len() * size,
            first == rows ==> (chunks@.len() - 1) * size < rows <= chunks@.len() * size,
            first < rows ==> chunks@.len() * size < rows,
            forall|i: int|
                0 <= i < chunks@.len() ==> {
                    let chunk = #[trigger] chunks@[i];
                    &&& chunk.0 == i * size
                    &&& chunk.1 == if rows - i * size < size {
                        rows - i * size
                    } else {
                        size
                    }
                },
        decreases rows - first,
    {
        let left: usize = rows - first;
        let take: usize = if step < left {
            step
        } else {
            left
        };
        let ghost n = chunks@.len() as int;
        proof {
            assert((n + 1) * size == n * size + size) by (nonlinear_arith);
        }
        chunks.push((first, take));
        first += take;
    }
    proof {
        let n = chunks@.len() as int;
        assert((rows + size - 1) / size == n) by (nonlinear_arith)
            requires
                size > 0,
                (n - 1) * size < rows <= n * size,
        ;
    }
    chunks
}

/// The whole number of times that `b` goes into `a`, rounded up.
pub(crate) fn div_ceil(a: usize, b: usize) -> (q: usize)
    requires
        b > 0,
    ensures
        q == (a + b - 1) / b as int,
{
    proof {
        lemma_div_ceil(a as int, b as int);
    }
    let whole: usize = a / b;
    if a % b == 0 {
        whole
    } else {
        proof {
            assert(whole < usize::MAX) by (nonlinear_arith)
                requires
                    whole == a / b,
                    a % b != 0,
                    b > 0,
                    a <= usize::MAX,
            ;
        }
        whole + 1
    }
}

/// Cuts `rows` output rows into contiguous chunks, one per thread. Short
/// outputs stay in one piece.
pub fn parallel_row_chunks(rows: usize, min_rows_per_thread: usize, threads: usize) -> (chunks: Vec<
    (usize, usize),
>)
    ensures
        cuts(
            chunks@,
            rows as int,
            chunk_rows(rows as int, min_rows_per_thread as int, threads as int),
        ),
{
    let min_rows: usize = if min_rows_per_thread < 1 {
        1
    } else {
        min_rows_per_thread
    };
    if threads <= 1 || rows / 2 < min_rows {
        return cut_rows(rows, rows);
    }
    let share: usize = div_ceil(rows, threads);
    let step: usize = if share < min_rows {
        min_rows
    } else {
        share
    };
    cut_rows(rows, step)
}

proof fn lemma_div_ceil(a: int, b: int)
    requires
        a >= 0,
        b > 0,
    ensures
        (a + b - 1) / b == if a % b == 0 {
            a / b
        } else {
            a / b + 1
        },
{
    vstd::arithmetic::div_mod::lemma_fundamental_div_mod(a, b);
    let q = a / b;
    let r = a % b;
    assert((a + b - 1) / b == if r == 0 {
        q
    } else {
        q + 1
    }) by (nonlinear_arith)
        requires
            a == b * q + r,
            0 <= r < b,
            b > 0,
    ;
}

/// Every row lies in exactly one chunk: each chunk begins where the one before
/// it ends, the first at row zero, and the last ends with the rows.
pub proof fn law_chunks_partition_rows(rows: int, size: int, count: int)
    requires
        rows > 0,
        size > 0,
        count == (rows + size - 1) / size,
    ensures
        count >= 1,
        (count - 1) * size < rows <= count * size,
        forall|i: int| 0 <= i < count - 1 ==> #[trigger] ((i + 1) * size) <= rows,
{
    lemma_div_ceil(rows, size);
    vstd::arithmetic::div_mod::lemma_fundamental_div_mod(rows, size);
    let q = rows / size;
    let r = rows % size;
    assert(count >= 1 && (count - 1) * size < rows <= count * size) by (nonlinear_arith)
        requires
            rows == size * q + r,
            0 <= r < size,
            rows > 0,
            count == if r == 0 {
                q
            } else {
                q + 1
            },
    ;
    assert forall|i: int| 0 <= i < count - 1 implies #[trigger] ((i + 1) * size) <= rows by {
        assert((i + 1) * size <= (count - 1) * size) by (nonlinear_arith)
            requires
                i + 1 <= count - 1,
                size > 0,
        ;
    }
}

/// Can the vector kernels run? They need both instruction sets.
pub fn simd_avx2_fma_available(avx2: bool, fma: bool) -> (available: bool)
    ensures
        available == (avx2 && fma),
{
    avx2 && fma
}

/// Name of a weight encoding.
pub fn deepseek_quant_format_name(format: u16) -> (name: &'static str)
    ensures
        format == QUANT_DEEPSEEK_RAW_MIXED ==> name@ == "deepseek_raw_mixed"@,
        format == QUANT_DEEPSEEK_FP8_E4M3 ==> name@ == "deepseek_fp8_e4m3"@,
        format == QUANT_DEEPSEEK_FP4_E2M1_PACKED ==> name@ == "deepseek_fp4_e2m1_packed"@,
        format == QUANT_DEEPSEEK_UE8M0_SCALE ==> name@ == "deepseek_ue8m0_scale"@,
        format == QUANT_DEEPSEEK_BF16_AUX ==> name@ == "deepseek_bf16_aux"@,
        format == QUANT_DEEPSEEK_F32_AUX ==> name@ == "deepseek_f32_aux"@,
        format == QUANT_DEEPSEEK_I64_AUX ==> name@ == "deepseek_i64_aux"@,
        !(QUANT_DEEPSEEK_RAW_MIXED <= format <= QUANT_DEEPSEEK_I64_AUX) ==> name@ == "unknown"@,
{
    match format {
        QUANT_DEEPSEEK_RAW_MIXED => "deepseek_raw_mixed",
        QUANT_DEEPSEEK_FP8_E4M3 => "deepseek_fp8_e4m3",
        QUANT_DEEPSEEK_FP4_E2M1_PACKED => "deepseek_fp4_e2m1_packed",
        QUANT_DEEPSEEK_UE8M0_SCALE => "deepseek_ue8m0_scale",
        QUANT_DEEPSEEK_BF16_AUX => "deepseek_bf16_aux",
        QUANT_DEEPSEEK_F32_AUX => "deepseek_f32_aux",
        QUANT_DEEPSEEK_I64_AUX => "deepseek_i64_aux",
        _ => "unknown",
    }
}

/// How a layer with this compression ratio attends.
pub fn attention_plan_for_compress_ratio(compress_ratio: usize) -> (plan: DeepSeekV4AttentionPlan)
    ensures
        plan == (DeepSeekV4AttentionPlan {
            sliding_window: DEEPSEEK_V4_SLIDING_WINDOW,
            index_topk: DEEPSEEK_V4_INDEX_TOPK,
            compress_ratio,
            uses_indexer: compress_ratio == 4,
            uses_compressor: compress_ratio > 0,
        }),
{
    DeepSeekV4AttentionPlan {
        sliding_window: DEEPSEEK_V4_SLIDING_WINDOW,
        index_topk: DEEPSEEK_V4_INDEX_TOPK,
        compress_ratio,
        uses_indexer: compress_ratio == 4,
        uses_compressor: compress_ratio > 0,
    }
}

/// How the hyper-connections are laid out.
pub fn mhc_plan() -> (plan: DeepSeekV4MhcPlan)
    ensures
        plan == (DeepSeekV4MhcPlan {
            hc_mult: 4,
            sinkhorn_iters: 20,
            has_attention_hc: true,
            has_ffn_hc: true,
            has_head_hc: true,
        }),
{
    DeepSeekV4MhcPlan {
        hc_mult: 4,
        sinkhorn_iters: 20,
        has_attention_hc: true,
        has_ffn_hc: true,
        has_head_hc: true,
    }
}

/// The experts by the score that they are chosen by, each with its number.
pub open spec fn scored_experts(select_bits: Seq<u32>) -> Seq<(i128, usize)> {
    Seq::new(select_bits.len(), |i: int| (number_key(select_bits[i]) as i128, i as usize))
}

/// The numbers of the `topk` experts with the highest scores, the highest
/// first, equal ones by number.
pub open spec fn top_experts_of(select_bits: Seq<u32>, topk: int) -> Seq<usize> {
    let sorted = ranked(scored_experts(select_bits));
    let count = if topk < sorted.len() {
        topk
    } else {
        sorted.len() as int
    };
    Seq::new(count as nat, |i: int| sorted[i].1)
}

/// The `topk` experts with the highest scores, where every score is a number.
/// The weights of those experts are worked out from scores without the bias.
pub fn select_experts_by_score(select_bits: &[u32], topk: usize) -> (experts: Vec<usize>)
    requires
        forall|i: int| 0 <= i < select_bits@.len() ==> !is_nan(#[trigger] select_bits@[i]),
    ensures
        experts@ == top_experts_of(select_bits@, topk as int),
{
    let mut keys: Vec<(i128, usize)> = Vec::new();
    let mut i: usize = 0;
    while i < select_bits.len()
        invariant
            i <= select_bits@.len(),
            keys@ == scored_experts(select_bits@).take(i as int),
        decreases select_bits@.len() - i,
    {
        let key: i128 = number_order_key(select_bits[i]);
        keys.push((key, i));
        proof {
            assert(keys@ =~= scored_experts(select_bits@).take(i + 1));
        }
        i += 1;
    }
    proof {
        assert(keys@ =~= scored_experts(select_bits@));
        crate::order::law_ranked_sorts(keys@);
    }
    let sorted: Vec<(i128, usize)> = rank_descending(&keys);
    let count: usize = if topk < sorted.len() {
        topk
    } else {
        sorted.len()
    };
    let mut experts: Vec<usize> = Vec::new();
    let mut j: usize = 0;
    while j < count
        invariant
            j <= count,
            count <= sorted@.len(),
            experts@ == Seq::new(j as nat, |i: int| sorted@[i].1),
        decreases count - j,
    {
        experts.push(sorted[j].1);
        proof {
            assert(experts@ =~= Seq::new((j + 1) as nat, |i: int| sorted@[i].1));
        }
        j += 1;
    }
    experts
}

/// Are the weights of the chosen experts divided by `sum_bits`, their sum? It
/// is so unless the sum is at most the least difference from one; then all
/// weigh the same.
pub fn route_weights_divided(sum_bits: u32) -> (divided: bool)
    ensures
        divided == (is_nan(sum_bits) || greater(sum_bits, 0x3400_0000)),
{
    bits_are_nan(sum_bits) || bits_greater(sum_bits, 0x3400_0000)
}

/// Two weights stand in a byte, the first in its low half, and rows start on bytes
/// of their own. Every weight of a run of a row goes with the one scale that the
/// row has for the run; all that is read is there.
pub proof fn law_packed_weights_go_with_their_scale(m: Fp4View, row: int, col: int, group: int)
    requires
        m.check(m.cols as int, m.rows as int) is Ok,
        0 <= row < m.rows,
        0 <= col < m.cols,
        0 <= group < m.scale_cols,
        group * m.cols <= col * m.scale_cols < (group + 1) * m.cols,
    ensures
        ({
            let width = (m.cols + 1) / 2;
            &&& 0 <= row * width + col / 2 < m.packed_weight.len()
            &&& m.nibble(row, col) == if col % 2 == 0 {
                m.packed_weight[row * width + col / 2] % 16
            } else {
                m.packed_weight[row * width + col / 2] / 16
            }
            &&& 0 <= row * m.scale_cols + group < m.ue8m0_scales.len()
            &&& m.scale(row, col) == m.ue8m0_scales[row * m.scale_cols + group]
        }),
{
    let width = (m.cols + 1) / 2;
    let cols = m.cols as int;
    let groups = m.scale_cols as int;
    lemma_row_fits(m.rows as int, width, row, col / 2);
    lemma_row_fits(m.rows as int, groups, row, group);
    lemma_group_below(cols, groups, col);
    let run = cols / groups;
    assert(group * run <= col < (group + 1) * run) by (nonlinear_arith)
        requires
            groups * run == cols,
            groups > 0,
            group * cols <= col * groups < (group + 1) * cols,
    ;
    assert(group * run == run * group && (group + 1) * run == run * group + run)
        by (nonlinear_arith);
    vstd::arithmetic::div_mod::lemma_fundamental_div_mod_converse(
        col,
        run,
        group,
        col - group * run,
    );
    let tail = m.packed_weight.skip(row * width);
    assert(tail[col / 2] == m.packed_weight[row * width + col / 2]);
}

/// The experts with the highest scores: each is named once, one with a higher
/// score comes first, of two with the same score the one with the lower number,
/// and none that is left out would come before one that is named.
pub proof fn law_top_experts_come_in_order(select_bits: Seq<u32>, topk: int)
    requires
        0 <= topk,
        select_bits.len() <= usize::MAX,
    ensures
        ({
            let experts = top_experts_of(select_bits, topk);
            &&& experts.len() == if topk < select_bits.len() {
                topk
            } else {
                select_bits.len() as int
            }
            &&& forall|i: int|
                0 <= i < experts.len() ==> (#[trigger] experts[i]) < select_bits.len()
            &&& forall|i: int, j: int|
                0 <= i < j < experts.len() ==> {
                    let first = #[trigger] experts[i];
                    let second = #[trigger] experts[j];
                    number_key(select_bits[first as int]) > number_key(select_bits[second as int])
                        || (number_key(select_bits[first as int]) == number_key(
                        select_bits[second as int],
                    ) && first < second)
                }
            &&& forall|i: int, id: int|
                0 <= i < experts.len() && 0 <= id < select_bits.len() && !experts.contains(
                    id as usize,
                ) ==> number_key(select_bits[(#[trigger] experts[i]) as int]) > number_key(
                    #[trigger] select_bits[id],
                ) || (number_key(select_bits[experts[i] as int]) == number_key(select_bits[id])
                    && experts[i] < id)
        }),
{
    let keys = scored_experts(select_bits);
    let experts = top_experts_of(select_bits, topk);
    let places = crate::order::law_ranking_arranges(keys);
    assert forall|i: int| 0 <= i < experts.len() implies #[trigger] experts[i] == places[i] by {
        assert(ranked(keys)[i] == keys[places[i]]);
    }
    assert forall|i: int, j: int| 0 <= i < j < experts.len() implies ({
        let first = #[trigger] experts[i];
        let second = #[trigger] experts[j];
        number_key(select_bits[first as int]) > number_key(select_bits[second as int]) || (
        number_key(select_bits[first as int]) == number_key(select_bits[second as int]) && first
            < second)
    }) by {
        assert(experts[i] == places[i] && experts[j] == places[j]);
        assert(keys[places[i]].0 == number_key(select_bits[places[i]]));
        assert(keys[places[j]].0 == number_key(select_bits[places[j]]));
    }
    assert forall|i: int, id: int|
        0 <= i < experts.len() && 0 <= id < select_bits.len() && !experts.contains(
            id as usize,
        ) implies number_key(select_bits[(#[trigger] experts[i]) as int]) > number_key(
        #[trigger] select_bits[id],
    ) || (number_key(select_bits[experts[i] as int]) == number_key(select_bits[id]) && experts[i]
        < id) by {
        assert(places.contains(id));
        let j = choose|j: int| 0 <= j < places.len() && places[j] == id;
        if j < experts.len() {
            assert(experts[j] == id);
            assert(false);
        }
        assert(places[i] != places[j]);
        assert(experts[i] == places[i]);
        assert(keys[places[i]].0 == number_key(select_bits[places[i]]));
        assert(keys[places[j]].0 == number_key(select_bits[places[j]]));
    }
}

/// Rows are cut into no more chunks than there are threads, and into chunks of no
/// fewer rows than a thread is worth, unless one chunk holds them all.
pub proof fn law_threads_get_enough_rows(rows: int, min_rows: int, threads: int)
    requires
        0 < rows,
        1 <= min_rows,
    ensures
        ({
            let size = chunk_rows(rows, min_rows, threads);
            &&& 0 < size
            &&& size == rows || size >= min_rows
            &&& threads <= 1 ==> size == rows
            &&& threads > 1 ==> size * threads >= rows
        }),
{
    if threads > 1 {
        let share = (rows + threads - 1) / threads;
        vstd::arithmetic::div_mod::lemma_fundamental_div_mod(rows + threads - 1, threads);
        vstd::arithmetic::div_mod::lemma_mod_bound(rows + threads - 1, threads);
        assert(threads * share == share * threads) by (nonlinear_arith);
        assert(share > 0) by (nonlinear_arith)
            requires
                threads * share >= rows,
                rows > 0,
                threads > 1,
        ;
        let size = chunk_rows(rows, min_rows, threads);
        assert(size * threads >= share * threads || size * threads >= rows) by (nonlinear_arith)
            requires
                size >= share || size == rows,
                threads > 1,
                rows > 0,
        ;
    }
}

/// Capitals do not matter for what a tensor is, and a scale is stored as one
/// whatever the tensor is.
pub proof fn law_names_are_read_without_capitals(name: Seq<u8>, role: DeepSeekV4TensorRole)
    ensures
        role_of_name(lower_bytes(name)) == role_of_name(name),
        storage_of(role, lower_bytes(name)) == storage_of(role, name),
        storage_of(role, name) is Scale <==> ends_with_bytes(
            lower_bytes(name),
            ".scale".spec_bytes(),
        ),
{
    crate::bytes::law_lowering_changes_capitals(name);
}

/// What `parallel_row_chunks` returns: chunks that follow each other from the first
/// row to the last, none empty but where there are no rows.
pub proof fn law_parallel_row_chunks(
    rows: usize,
    min_rows: usize,
    threads: usize,
    chunks: Vec<(usize, usize)>,
)
    requires
        rows > 0,
        call_ensures(parallel_row_chunks, (rows, min_rows, threads), chunks),
    ensures
        chunks@.len() >= 1,
        chunks@[0].0 == 0,
        chunks@.last().0 + chunks@.last().1 == rows,
        forall|i: int| 0 <= i < chunks@.len() ==> (#[trigger] chunks@[i]).1 > 0,
        forall|i: int|
            0 <= i < chunks@.len() - 1 ==> (#[trigger] chunks@[i]).0 + chunks@[i].1 == chunks@[i
                + 1].0,
{
    let size = chunk_rows(rows as int, min_rows as int, threads as int);
    let count = chunks@.len() as int;
    law_chunks_partition_rows(rows as int, size, count);
    assert(0 * size == 0) by (nonlinear_arith);
    assert forall|i: int| 0 <= i < count implies (#[trigger] chunks@[i]).1 > 0 by {
        assert(i * size <= (count - 1) * size) by (nonlinear_arith)
            requires
                i <= count - 1,
                size > 0,
        ;
    }
    assert forall|i: int| 0 <= i < count - 1 implies (#[trigger] chunks@[i]).0 + chunks@[i].1
        == chunks@[i + 1].0 by {
        assert((i + 1) * size == i * size + size) by (nonlinear_arith);
        assert((i + 1) * size <= rows);
    }
    assert(count * size == (count - 1) * size + size) by (nonlinear_arith);
}

/// What `select_experts_by_score` returns: experts named once each, from the highest
/// score down, of equal ones the lower number first.
pub proof fn law_select_experts_by_score(
    select_bits: &[u32],
    topk: usize,
    experts: Vec<usize>,
    i: int,
    j: int,
)
    requires
        select_bits@.len() <= usize::MAX,
        call_ensures(select_experts_by_score, (select_bits, topk), experts),
        0 <= i < j < experts@.len(),
    ensures
        experts@.len() == if topk < select_bits@.len() {
            topk as int
        } else {
            select_bits@.len() as int
        },
        experts@[i] < select_bits@.len() && experts@[j] < select_bits@.len(),
        number_key(select_bits@[experts@[i] as int]) > number_key(
            select_bits@[experts@[j] as int],
        ) || (number_key(select_bits@[experts@[i] as int]) == number_key(
            select_bits@[experts@[j] as int],
        ) && experts@[i] < experts@[j]),
{
    law_top_experts_come_in_order(select_bits@, topk as int);
}

/// What `fp4_row_group` returns: the columns of the group, the bytes that hold their
/// weights, and the one scale for all of them. Groups follow each other, and so do
/// rows.
pub proof fn law_row_groups_follow_each_other(
    spec: Fp4Matvec<'_>,
    row: usize,
    group: usize,
    part: Fp4Group,
    col: int,
)
    requires
        spec@.check(spec.cols as int, spec.rows as int) is Ok,
        spec.cols % 2 == 0,
        (spec.cols as int / spec.scale_cols as int) % 2 == 0,
        row < spec.rows,
        group < spec.scale_cols,
        call_ensures(fp4_row_group, (spec, row, group), part),
        part.col_start <= col < part.col_start + part.col_count,
    ensures
        part.col_count * spec.scale_cols == spec.cols,
        part.col_start == group * part.col_count,
        2 * part.weight_bytes == part.col_count,
        part.scale_bits == spec@.scale(row as int, col) * 8388608,
        2 * (part.weight_start - row * (spec.cols as int / 2)) == part.col_start,
        spec@.nibble(row as int, col) == if col % 2 == 0 {
            spec.packed_weight@[part.weight_start + (col - part.col_start) / 2] % 16
        } else {
            spec.packed_weight@[part.weight_start + (col - part.col_start) / 2] / 16
        },
{
    let cols = spec.cols as int;
    let groups = spec.scale_cols as int;
    let width = cols / groups;
    lemma_group_below(cols, groups, 0);
    assert(groups * width == width * groups) by (nonlinear_arith);
    assert(group * width == 2 * (group * (width / 2))) by (nonlinear_arith)
        requires
            width == 2 * (width / 2),
    ;
    assert(group * width + width <= groups * width && (group + 1) * width == group * width + width)
        by (nonlinear_arith)
        requires
            group + 1 <= groups,
            width > 0,
    ;
    assert(0 <= group * width) by (nonlinear_arith)
        requires
            width > 0,
    ;
    assert(group * cols <= col * groups < (group + 1) * cols) by (nonlinear_arith)
        requires
            groups * width == cols,
            groups > 0,
            group * width <= col < (group + 1) * width,
    ;
    assert(group * cols <= (group * width) * groups < (group + 1) * cols) by (nonlinear_arith)
        requires
            groups * width == cols,
            groups > 0,
            width > 0,
    ;
    law_packed_weights_go_with_their_scale(spec@, row as int, col, group as int);
    law_packed_weights_go_with_their_scale(spec@, row as int, group * width, group as int);
    assert((cols + 1) / 2 == cols / 2);
}

} // verus!
