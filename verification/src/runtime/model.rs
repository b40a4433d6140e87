//! What is known of a model before its weights are loaded.

use vstd::prelude::*;

use super::brumby;
use super::loader::PAD_MAT;

verus! {

/// The family of a model.
#[derive(Debug, Clone, Copy, PartialEq, Eq, Hash, Structural)]
pub enum ModelVersion {
    /// RWKV v4.
    V4,
    /// RWKV v5.
    V5,
    /// RWKV v6.
    V6,
    /// RWKV v7.
    V7,
    /// Power retention with HuggingFace-style tensor names.
    Brumby,
}

/// An activation function.
#[derive(Debug, Clone, Copy, PartialEq, Eq, Hash, Structural)]
pub enum Activation {
    /// The value itself.
    Identity,
    /// SiLU.
    Silu,
    /// GELU.
    Gelu,
    /// `-exp(x)`.
    OppositeExp,
    /// `exp(-exp(x))`, in a form that does not overflow.
    StableExp,
}

/// How the matrices of a layer are quantized.
#[derive(Debug, Clone, Copy, PartialEq, Eq, Hash, Structural)]
pub enum Quant {
    /// Not at all: they stay 16-bit floats.
    Fp16,
    /// To 8-bit integers.
    Int8,
    /// To 4-bit normal floats.
    NF4,
    /// To 4-bit Student floats.
    SF4,
}

/// Sizes that only RWKV v6 models have.
#[derive(Debug, Clone, Copy, PartialEq, Eq, Hash, Structural)]
pub struct V6Info {
    /// Rank of the time mix.
    pub time_mix: usize,
    /// Rank of the time decay.
    pub time_decay: usize,
}

/// Sizes that only RWKV v7 models have.
#[derive(Debug, Clone, Copy, PartialEq, Eq, Hash, Structural)]
pub struct V7Info {
    /// Rank of `w`.
    pub w: usize,
    /// Rank of `a`.
    pub a: usize,
    /// Rank of `g`.
    pub g: usize,
    /// Rank of `v`.
    pub v: usize,
}

/// What only some model families have.
#[derive(Debug, Clone, Copy, PartialEq, Eq, Hash, Structural)]
pub enum ModelCustomInfo {
    /// Nothing more.
    Plain,
    /// RWKV v6.
    V6(V6Info),
    /// RWKV v7.
    V7(V7Info),
    /// The Brumby family.
    Brumby(brumby::CustomInfo),
}

/// What is known of a model from the names and shapes of its tensors.
#[derive(Debug, Clone, Copy, PartialEq, Eq, Hash, Structural)]
pub struct ModelInfo {
    /// The family of the model.
    pub version: ModelVersion,
    /// Number of layers.
    pub num_layer: usize,
    /// Embedding dimension.
    pub num_emb: usize,
    /// Hidden dimension of the feed-forward network.
    pub num_hidden: usize,
    /// Size of the vocabulary.
    pub num_vocab: usize,
    /// Number of attention heads.
    pub num_head: usize,
    /// What only the family has.
    pub custom: ModelCustomInfo,
}

impl ModelInfo {
    /// The size of the vocabulary, rounded up to a multiple of the matrix padding.
    pub open spec fn padded_vocab(&self) -> int {
        (self.num_vocab as int + PAD_MAT[1] - 1) / (PAD_MAT[1] as int) * PAD_MAT[1]
    }

    /// The size of the vocabulary, rounded up to a multiple of the matrix padding.
    pub fn num_vocab_padded(&self) -> (r: usize)
        requires
            self.padded_vocab() <= usize::MAX,
        ensures
            r == self.padded_vocab(),
            r >= self.num_vocab,
            r % PAD_MAT[1] == 0,
    {
        let pad = PAD_MAT[1];
        let over = self.num_vocab % pad;
        if over == 0 {
            self.num_vocab
        } else {
            self.num_vocab - over + pad
        }
    }
}

} // verus!
