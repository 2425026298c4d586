//! Compute side: quantised blocks and what the kernels are told to do.

pub mod act_quant;
pub mod compressor;
pub mod config;
pub mod counts;
pub mod dequant;
pub mod embedding;
pub mod error;
pub mod expert_cache;
pub mod experts;
pub mod fused_gemv;
pub mod gemv;
pub mod glm_attention;
pub mod hc;
pub mod kv_cache;
pub mod layer;
pub mod lm_head;
pub mod lookup;
pub mod mhc;
pub mod mla;
pub mod moe;
pub mod mtp;
pub mod norm;
pub mod phase1_prof;
pub mod quant_block;
pub mod rope;
pub mod routing;
pub mod synthetic;
pub mod values;
