//! Tokenizers, model metadata and inference plans for RWKV and power-retention
//! models.

pub mod bpe;
pub mod greedy;
pub mod hash;
pub mod merging;
pub mod names;
pub mod native;
pub mod pattern;
pub mod runtime;
pub mod sessions;
pub mod text;
pub mod tokenizer;
pub mod web;
