//! Power-retention models: Brumby and PowerCoder.

use vstd::prelude::*;

use super::model::{Activation, ModelCustomInfo, ModelInfo};

pub use super::assembly::ModelBuilder;
pub use super::bundle::{Bundle, Frame, HookMap, RnnJob};
pub use super::state::State;

verus! {

/// Custom info for the Brumby model family (Brumby-14B, PowerCoder-3B).
#[derive(Debug, Clone, Copy, PartialEq, Eq, Hash, Structural)]
pub struct CustomInfo {
    /// Number of key-value heads (GQA).
    pub num_kv_head: usize,
    /// Dimension per attention head.
    pub head_dim: usize,
    /// FFN intermediate size.
    pub intermediate_size: usize,
    /// Whether the model uses QK norms (true for Brumby, false for PowerCoder).
    pub has_qk_norm: bool,
    /// Whether the FFN is gated (true for Brumby, false for PowerCoder).
    pub gated_ffn: bool,
    /// Hidden activation function (Silu for Brumby, Gelu for PowerCoder).
    pub hidden_act: Activation,
    /// RoPE theta stored as f32 bits (1e6 for Brumby, 1e4 for PowerCoder).
    pub rope_theta_bits: u32,
    /// Degree of the power retention (1 for Brumby, 2 for PowerCoder).
    pub power_deg: u32,
}

impl CustomInfo {
    /// The base of the rotary embedding, as the bits of a 32-bit float.
    pub fn rope_theta(&self) -> (r: u32)
        ensures
            r == self.rope_theta_bits,
    {
        self.rope_theta_bits
    }

    /// The same with another base of the rotary embedding, as the bits of a 32-bit
    /// float.
    pub fn with_rope_theta(self, theta: u32) -> (r: Self)
        ensures
            r == (CustomInfo { rope_theta_bits: theta, ..self }),
    {
        CustomInfo { rope_theta_bits: theta, ..self }
    }
}

/// A model with its tensors: `V` stands for vectors, `M` for matrices and `E` for the
/// embedding table.
#[derive(Debug)]
pub struct Model<V, M, E> {
    /// What is known of the model.
    pub info: ModelInfo,
    /// The number of layers after which the hidden values are halved.
    pub rescale: usize,
    /// The number of layers that are submitted together.
    pub sep: usize,
    /// The tensors.
    pub tensor: ModelTensor<V, M, E>,
}

/// The epsilon of the RMS norms, one millionth, as the bits of a 32-bit float.
pub const RMS_EPS_BITS: u32 = 0x3586_37bd;

/// The number of layers after which the hidden values are halved, unless it is set.
pub const DEFAULT_RESCALE: usize = usize::MAX;

/// The number of layers that are submitted together, unless it is set.
pub const DEFAULT_SEP: usize = 1024;

/// The tensors of a model.
#[derive(Debug)]
pub struct ModelTensor<V, M, E> {
    pub embed: Embed<E>,
    pub head: Head<V, M>,
    pub layers: Vec<Layer<V, M>>,
}

/// RMS normalization. Models without a bias have one of zeros.
#[derive(Debug)]
pub struct RmsNorm<V> {
    pub w: V,
    pub b: V,
}

/// Power retention attention layer.
#[derive(Debug)]
pub struct Att<V, M> {
    pub q_proj: M,
    pub k_proj: M,
    pub v_proj: M,
    pub o_proj: M,
    pub g_proj: M,
    pub q_norm: Option<RmsNorm<V>>,
    pub k_norm: Option<RmsNorm<V>>,
    pub q_bias: Option<V>,
    pub k_bias: Option<V>,
    pub v_bias: Option<V>,
    pub o_bias: Option<V>,
    pub g_bias: Option<V>,
}

/// Feed-forward network (gated or dense).
#[derive(Debug)]
pub enum Ffn<V, M> {
    /// Brumby: gate_proj -> SiLU, up_proj, mul, down_proj
    Gated {
        gate_proj: M,
        up_proj: M,
        down_proj: M,
    },
    /// PowerCoder: c_fc -> GELU, c_proj
    Dense {
        c_fc: M,
        c_fc_bias: Option<V>,
        c_proj: M,
        c_proj_bias: Option<V>,
    },
}

/// A layer of a model.
#[derive(Debug)]
pub struct Layer<V, M> {
    pub input_ln: RmsNorm<V>,
    pub post_att_ln: RmsNorm<V>,
    pub att: Att<V, M>,
    pub ffn: Ffn<V, M>,
}

/// The embedding table.
#[derive(Debug)]
pub struct Embed<E> {
    pub w: E,
}

/// The head of a model.
#[derive(Debug)]
pub struct Head<V, M> {
    pub ln: RmsNorm<V>,
    pub w: M,
}

/// The buffers of an inference, or anything else that there is one of for each.
#[derive(Debug, PartialEq, Eq)]
pub struct Runtime<T> {
    pub cursors: T,
    pub input: T,
    pub x: T,
    /// Attention intermediates.
    pub att_x: T,
    pub att_q: T,
    pub att_k: T,
    pub att_v: T,
    pub att_g: T,
    pub att_o: T,
    /// FFN intermediates.
    pub ffn_x: T,
    pub ffn_gate: T,
    pub ffn_up: T,
    pub ffn_down: T,
}

/// The number of heads that have a gate: all of them in models with QK norms, and
/// those of keys and values in others.
pub open spec fn gate_heads(info: ModelInfo, custom: CustomInfo) -> usize {
    if custom.has_qk_norm {
        info.num_head
    } else {
        custom.num_kv_head
    }
}

/// The number of heads that have a gate.
pub fn num_gate_head(info: &ModelInfo, custom: &CustomInfo) -> (r: usize)
    ensures
        r == gate_heads(*info, *custom),
{
    if custom.has_qk_norm {
        info.num_head
    } else {
        custom.num_kv_head
    }
}

impl Runtime<[usize; 4]> {
    /// The shapes of the buffers for a number of tokens.
    pub open spec fn shapes(info: ModelInfo, num_token: usize) -> Self {
        let custom = info.custom->Brumby_0;
        let shape = [info.num_emb, num_token, 1, 1];
        let kv_shape = [(custom.num_kv_head * custom.head_dim) as usize, num_token, 1, 1];
        let ffn_shape = [custom.intermediate_size, num_token, 1, 1];
        Runtime {
            cursors: [num_token, 1, 1, 1],
            input: shape,
            x: shape,
            att_x: shape,
            att_q: shape,
            att_k: kv_shape,
            att_v: kv_shape,
            att_g: [gate_heads(info, custom), num_token, 1, 1],
            att_o: shape,
            ffn_x: shape,
            ffn_gate: ffn_shape,
            ffn_up: ffn_shape,
            ffn_down: shape,
        }
    }

    /// The shapes of the buffers for a number of tokens.
    pub fn new(info: &ModelInfo, num_token: usize) -> (r: Self)
        requires
            info.custom matches ModelCustomInfo::Brumby(custom) && custom.num_kv_head
                * custom.head_dim <= usize::MAX,
        ensures
            r == Runtime::shapes(*info, num_token),
    {
        match &info.custom {
            ModelCustomInfo::Brumby(custom) => {
                let shape = [info.num_emb, num_token, 1, 1];
                let kv_shape = [custom.num_kv_head * custom.head_dim, num_token, 1, 1];
                let gate_shape = [num_gate_head(info, custom), num_token, 1, 1];
                let ffn_shape = [custom.intermediate_size, num_token, 1, 1];
                Runtime {
                    cursors: [num_token, 1, 1, 1],
                    input: shape,
                    x: shape,
                    att_x: shape,
                    att_q: shape,
                    att_k: kv_shape,
                    att_v: kv_shape,
                    att_g: gate_shape,
                    att_o: shape,
                    ffn_x: shape,
                    ffn_gate: ffn_shape,
                    ffn_up: ffn_shape,
                    ffn_down: shape,
                }
            },
            _ => vstd::pervasive::unreached(),
        }
    }
}

/// The buffers of the head, or anything else that there is one of for each.
#[derive(Debug, PartialEq, Eq)]
pub struct Header<T> {
    pub head_x: T,
    pub head_o: T,
}

impl Header<[usize; 4]> {
    /// The shapes of the buffers for a number of outputs.
    pub open spec fn shapes(info: ModelInfo, num_header: usize) -> Self {
        Header {
            head_x: [info.num_emb, num_header, 1, 1],
            head_o: [info.padded_vocab() as usize, num_header, 1, 1],
        }
    }

    /// The shapes of the buffers for a number of outputs.
    pub fn new(info: &ModelInfo, num_header: usize) -> (r: Self)
        requires
            info.padded_vocab() <= usize::MAX,
        ensures
            r == Header::shapes(*info, num_header),
    {
        Header {
            head_x: [info.num_emb, num_header, 1, 1],
            head_o: [info.num_vocab_padded(), num_header, 1, 1],
        }
    }
}

/// The points of an inference where a hook can add an operation.
#[derive(Debug, Clone, Copy, PartialEq, Eq, Hash, Structural)]
pub enum Hook {
    PostEmbedLoaded,
    PreAtt(usize),
    PostAttLayerNorm(usize),
    PreAttLinear(usize),
    PostAttLinear(usize),
    PreAttRetention(usize),
    PostAttRetention(usize),
    PreAttOut(usize),
    PostAttOut(usize),
    PostAtt(usize),
    PreFfn(usize),
    PostFfnLayerNorm(usize),
    PreFfnLinear(usize),
    PostFfnGate(usize),
    PostFfnLinear(usize),
    PostFfn(usize),
    PreHead,
    PostHeadLayerNorm,
    PostHead,
}

/// The number of tokens that inputs are chunked by, at least.
pub const MIN_TOKEN_CHUNK_SIZE: usize = 32;

/// Whether a number of tokens can be multiplied by whole chunks.
pub fn turbo(num_token: usize) -> (r: bool)
    ensures
        r == (num_token % MIN_TOKEN_CHUNK_SIZE == 0),
{
    num_token % MIN_TOKEN_CHUNK_SIZE == 0
}

} // verus!
