//! The operations of an inference, in order.

use vstd::prelude::*;

use super::brumby::{
    gate_heads, num_gate_head, turbo, Att, CustomInfo, DEFAULT_RESCALE, Ffn, Head, Hook, Layer,
    MIN_TOKEN_CHUNK_SIZE, Model, RMS_EPS_BITS, RmsNorm,
};
use super::model::{Activation, ModelCustomInfo, ModelInfo};
use super::state::{has_state, head_rows, StateRows};

verus! {

/// A buffer of an inference.
#[derive(Debug, Clone, Copy, PartialEq, Eq, Structural)]
pub enum Buffer {
    Cursors,
    Input,
    X,
    AttX,
    AttQ,
    AttK,
    AttV,
    AttG,
    AttO,
    FfnX,
    FfnGate,
    FfnUp,
    FfnDown,
    HeadX,
    HeadO,
}

/// An operation. Floats stand as the bits of 32-bit floats.
#[derive(Debug)]
pub enum Op<'a, V, M> {
    /// What a hook adds, if there is one.
    Hook(Hook),
    /// Copies a buffer.
    Blit {
        from: Buffer,
        to: Buffer,
    },
    /// Normalizes a buffer.
    RmsNorm {
        w: &'a V,
        b: &'a V,
        x: Buffer,
        eps: u32,
    },
    /// Normalizes each head of a buffer.
    GroupRmsNorm {
        w: &'a V,
        b: &'a V,
        x: Buffer,
        head_dim: u32,
        eps: u32,
    },
    /// Multiplies a buffer by a matrix and applies a function to the product.
    Matmul {
        matrix: &'a M,
        input: Buffer,
        output: Buffer,
        act: Activation,
        turbo: bool,
    },
    /// Adds a vector to a buffer.
    AddBias {
        bias: &'a V,
        x: Buffer,
    },
    /// Adds a buffer to another.
    Add {
        from: Buffer,
        to: Buffer,
    },
    /// Multiplies a buffer by another.
    Mul {
        from: Buffer,
        to: Buffer,
    },
    /// Applies a function to each element of a buffer.
    Activate {
        x: Buffer,
        act: Activation,
    },
    /// Rotates the heads of a buffer by the positions of their tokens.
    Rope {
        x: Buffer,
        head_dim: u32,
        num_head: u32,
        theta: u32,
    },
    /// Power retention: from gates, queries, keys and values, and the state of a layer,
    /// to the output of the attention.
    PowerRetention {
        state: StateRows,
        head_dim: u32,
        num_head: u32,
        num_kv_head: u32,
        num_gate_head: u32,
    },
    /// Multiplies each element of a buffer by a scale and adds an offset.
    Affine {
        x: Buffer,
        scale: u32,
        offset: u32,
    },
    /// Ends what is submitted together.
    Sep,
    /// Gathers the tokens that have an output.
    Redirect,
}

/// The bits of the 32-bit float `0.5`.
pub const HALF_BITS: u32 = 0x3f00_0000;

/// The bits of the 32-bit float `0.0`.
pub const ZERO_BITS: u32 = 0;

/// Whether a number of tokens can be multiplied by whole chunks.
pub open spec fn is_turbo(num_token: usize) -> bool {
    num_token % MIN_TOKEN_CHUNK_SIZE == 0
}

/// Adding a bias, where there is one.
pub open spec fn bias_ops<'a, V, M>(bias: &'a Option<V>, x: Buffer) -> Seq<Op<'a, V, M>> {
    match bias {
        Some(bias) => seq![Op::AddBias { bias, x }],
        None => Seq::empty(),
    }
}

/// Multiplying a buffer by a matrix.
pub open spec fn matmul<'a, V, M>(
    matrix: &'a M,
    input: Buffer,
    output: Buffer,
    act: Activation,
    num_token: usize,
) -> Op<'a, V, M> {
    Op::Matmul { matrix, input, output, act, turbo: is_turbo(num_token) }
}

/// Multiplying a buffer by a matrix and adding a bias, where there is one.
pub open spec fn linear_ops<'a, V, M>(
    matrix: &'a M,
    bias: &'a Option<V>,
    input: Buffer,
    output: Buffer,
    num_token: usize,
) -> Seq<Op<'a, V, M>> {
    seq![matmul(matrix, input, output, Activation::Identity, num_token)] + bias_ops(bias, output)
}

/// Normalizing each head of a buffer, where there is a norm.
pub open spec fn norm_ops<'a, V, M>(
    norm: &'a Option<RmsNorm<V>>,
    x: Buffer,
    custom: CustomInfo,
) -> Seq<Op<'a, V, M>> {
    match norm {
        Some(norm) => seq![
            Op::GroupRmsNorm {
                w: &norm.w,
                b: &norm.b,
                x,
                head_dim: custom.head_dim as u32,
                eps: RMS_EPS_BITS,
            },
        ],
        None => Seq::empty(),
    }
}

/// The projections of a layer: queries, keys, values and gates.
pub open spec fn projection_ops<'a, V, M>(att: &'a Att<V, M>, num_token: usize) -> Seq<
    Op<'a, V, M>,
> {
    linear_ops(&att.q_proj, &att.q_bias, Buffer::AttX, Buffer::AttQ, num_token) + linear_ops(
        &att.k_proj,
        &att.k_bias,
        Buffer::AttX,
        Buffer::AttK,
        num_token,
    ) + linear_ops(&att.v_proj, &att.v_bias, Buffer::AttX, Buffer::AttV, num_token) + linear_ops(
        &att.g_proj,
        &att.g_bias,
        Buffer::AttX,
        Buffer::AttG,
        num_token,
    )
}

/// The rotation and the power retention of a layer.
pub open spec fn retention_ops<'a, V, M>(
    att: &'a Att<V, M>,
    index: usize,
    info: ModelInfo,
    custom: CustomInfo,
) -> Seq<Op<'a, V, M>> {
    let head_dim = custom.head_dim as u32;
    norm_ops(&att.q_norm, Buffer::AttQ, custom) + norm_ops(&att.k_norm, Buffer::AttK, custom)
        + seq![
        Op::Rope {
            x: Buffer::AttQ,
            head_dim,
            num_head: info.num_head as u32,
            theta: custom.rope_theta_bits,
        },
        Op::Rope {
            x: Buffer::AttK,
            head_dim,
            num_head: custom.num_kv_head as u32,
            theta: custom.rope_theta_bits,
        },
        Op::Hook(Hook::PreAttRetention(index)),
        Op::PowerRetention {
            state: StateRows { layer: index, start: 0, end: head_rows(info) as usize },
            head_dim,
            num_head: info.num_head as u32,
            num_kv_head: custom.num_kv_head as u32,
            num_gate_head: gate_heads(info, custom) as u32,
        },
        Op::Hook(Hook::PostAttRetention(index)),
    ]
}

/// The attention of a layer, which ends with its residual connection.
pub open spec fn att_ops<'a, V, M>(
    layer: &'a Layer<V, M>,
    index: usize,
    num_token: usize,
    info: ModelInfo,
    custom: CustomInfo,
) -> Seq<Op<'a, V, M>> {
    seq![
        Op::Blit { from: Buffer::X, to: Buffer::AttX },
        Op::Hook(Hook::PreAtt(index)),
        Op::RmsNorm {
            w: &layer.input_ln.w,
            b: &layer.input_ln.b,
            x: Buffer::AttX,
            eps: RMS_EPS_BITS,
        },
        Op::Hook(Hook::PostAttLayerNorm(index)),
        Op::Hook(Hook::PreAttLinear(index)),
    ] + projection_ops(&layer.att, num_token) + seq![Op::Hook(Hook::PostAttLinear(index))]
        + retention_ops(&layer.att, index, info, custom) + seq![Op::Hook(Hook::PreAttOut(index))]
        + linear_ops(
        &layer.att.o_proj,
        &layer.att.o_bias,
        Buffer::AttO,
        Buffer::AttX,
        num_token,
    ) + seq![
        Op::Hook(Hook::PostAttOut(index)),
        Op::Add { from: Buffer::AttX, to: Buffer::X },
        Op::Hook(Hook::PostAtt(index)),
    ]
}

/// The feed-forward network of a layer.
pub open spec fn ffn_net_ops<'a, V, M>(
    ffn: &'a Ffn<V, M>,
    index: usize,
    num_token: usize,
    custom: CustomInfo,
) -> Seq<Op<'a, V, M>> {
    match ffn {
        Ffn::Gated { gate_proj, up_proj, down_proj } => seq![
            matmul(gate_proj, Buffer::FfnX, Buffer::FfnGate, Activation::Silu, num_token),
            matmul(up_proj, Buffer::FfnX, Buffer::FfnUp, Activation::Identity, num_token),
            Op::Hook(Hook::PostFfnGate(index)),
            Op::Mul { from: Buffer::FfnGate, to: Buffer::FfnUp },
            matmul(down_proj, Buffer::FfnUp, Buffer::FfnDown, Activation::Identity, num_token),
        ],
        Ffn::Dense { c_fc, c_fc_bias, c_proj, c_proj_bias } => linear_ops(
            c_fc,
            c_fc_bias,
            Buffer::FfnX,
            Buffer::FfnGate,
            num_token,
        ) + seq![
            Op::Activate { x: Buffer::FfnGate, act: custom.hidden_act },
            Op::Hook(Hook::PostFfnGate(index)),
        ] + linear_ops(c_proj, c_proj_bias, Buffer::FfnGate, Buffer::FfnDown, num_token),
    }
}

/// The feed-forward block of a layer, which ends with its residual connection.
pub open spec fn ffn_ops<'a, V, M>(
    layer: &'a Layer<V, M>,
    index: usize,
    num_token: usize,
    custom: CustomInfo,
) -> Seq<Op<'a, V, M>> {
    seq![
        Op::Blit { from: Buffer::X, to: Buffer::FfnX },
        Op::Hook(Hook::PreFfn(index)),
        Op::RmsNorm {
            w: &layer.post_att_ln.w,
            b: &layer.post_att_ln.b,
            x: Buffer::FfnX,
            eps: RMS_EPS_BITS,
        },
        Op::Hook(Hook::PostFfnLayerNorm(index)),
        Op::Hook(Hook::PreFfnLinear(index)),
    ] + ffn_net_ops(&layer.ffn, index, num_token, custom) + seq![
        Op::Hook(Hook::PostFfnLinear(index)),
        Op::Add { from: Buffer::FfnDown, to: Buffer::X },
        Op::Hook(Hook::PostFfn(index)),
    ]
}

/// Halving the hidden values, after every `rescale` layers.
pub open spec fn rescale_ops<'a, V, M>(index: usize, rescale: usize) -> Seq<Op<'a, V, M>> {
    if rescale != 0 && (index + 1) % (rescale as int) == 0 {
        seq![Op::Affine { x: Buffer::X, scale: HALF_BITS, offset: ZERO_BITS }]
    } else {
        Seq::empty()
    }
}

/// The operations of a layer.
pub open spec fn layer_ops<'a, V, M>(
    layer: &'a Layer<V, M>,
    index: usize,
    num_token: usize,
    rescale: usize,
    info: ModelInfo,
) -> Seq<Op<'a, V, M>> {
    let custom = info.custom->Brumby_0;
    att_ops(layer, index, num_token, info, custom) + ffn_ops(layer, index, num_token, custom)
        + rescale_ops(index, rescale)
}

/// The operations of the head.
pub open spec fn head_ops<'a, V, M>(head: &'a Head<V, M>, num_header: usize) -> Seq<Op<'a, V, M>> {
    if num_header > 0 {
        seq![
            Op::Redirect,
            Op::Hook(Hook::PreHead),
            Op::RmsNorm { w: &head.ln.w, b: &head.ln.b, x: Buffer::HeadX, eps: RMS_EPS_BITS },
            Op::Hook(Hook::PostHeadLayerNorm),
            matmul(&head.w, Buffer::HeadX, Buffer::HeadO, Activation::Identity, num_header),
            Op::Hook(Hook::PostHead),
        ]
    } else {
        seq![Op::Redirect]
    }
}

/// Ending what is submitted together, after every `sep` layers.
pub open spec fn sep_ops<'a, V, M>(index: usize, sep: usize) -> Seq<Op<'a, V, M>> {
    if (index + 1) % (sep as int) == 0 {
        seq![Op::Sep]
    } else {
        Seq::empty()
    }
}

/// The operations of the first `count` layers.
pub open spec fn layers_ops<'a, V, M>(
    layers: Seq<Layer<V, M>>,
    count: nat,
    num_token: usize,
    rescale: usize,
    sep: usize,
    info: ModelInfo,
) -> Seq<Op<'a, V, M>>
    decreases count,
{
    if count == 0 {
        Seq::empty()
    } else {
        let index = (count - 1) as usize;
        layers_ops(layers, (count - 1) as nat, num_token, rescale, sep, info) + layer_ops(
            &layers[index as int],
            index,
            num_token,
            rescale,
            info,
        ) + sep_ops(index, sep)
    }
}

/// The operations of an inference. There are none where there is no token.
pub open spec fn dispatch_ops<'a, V, M, E>(
    model: Model<V, M, E>,
    num_token: usize,
    num_header: usize,
) -> Seq<Op<'a, V, M>> {
    if num_token == 0 {
        Seq::empty()
    } else {
        seq![Op::Hook(Hook::PostEmbedLoaded), Op::Blit { from: Buffer::Input, to: Buffer::X }]
            + layers_ops(
            model.tensor.layers@,
            model.tensor.layers@.len(),
            num_token,
            model.rescale,
            model.sep,
            model.info,
        ) + head_ops(&model.tensor.head, num_header)
    }
}

/// The hook of an operation.
pub open spec fn hook_of<V, M>(op: Op<'_, V, M>) -> Seq<Hook> {
    match op {
        Op::Hook(hook) => seq![hook],
        _ => Seq::empty(),
    }
}

/// The hooks among operations, in order.
#[verifier::opaque]
pub open spec fn hooks_in<V, M>(ops: Seq<Op<'_, V, M>>) -> Seq<Hook>
    decreases ops.len(),
{
    if ops.len() == 0 {
        Seq::empty()
    } else {
        hooks_in(ops.drop_last()) + hook_of(ops.last())
    }
}

/// The operation itself, where it changes the hidden values.
pub open spec fn hidden_change<'a, V, M>(op: Op<'a, V, M>) -> Seq<Op<'a, V, M>> {
    let changed = match op {
        Op::Blit { to, .. } => to,
        Op::RmsNorm { x, .. } => x,
        Op::GroupRmsNorm { x, .. } => x,
        Op::Matmul { output, .. } => output,
        Op::AddBias { x, .. } => x,
        Op::Add { to, .. } => to,
        Op::Mul { to, .. } => to,
        Op::Activate { x, .. } => x,
        Op::Rope { x, .. } => x,
        Op::PowerRetention { .. } => Buffer::AttO,
        Op::Affine { x, .. } => x,
        Op::Redirect => Buffer::HeadX,
        Op::Hook(_) | Op::Sep => Buffer::Cursors,
    };
    if changed == Buffer::X {
        seq![op]
    } else {
        Seq::empty()
    }
}

/// The operations that change the hidden values, in order.
#[verifier::opaque]
pub open spec fn hidden_changes<'a, V, M>(ops: Seq<Op<'a, V, M>>) -> Seq<Op<'a, V, M>>
    decreases ops.len(),
{
    if ops.len() == 0 {
        Seq::empty()
    } else {
        hidden_changes(ops.drop_last()) + hidden_change(ops.last())
    }
}

proof fn lemma_push<'a, V, M>(ops: Seq<Op<'a, V, M>>, op: Op<'a, V, M>)
    ensures
        hooks_in(ops.push(op)) == hooks_in(ops) + hook_of(op),
        hidden_changes(ops.push(op)) == hidden_changes(ops) + hidden_change(op),
{
    reveal(hooks_in);
    reveal(hidden_changes);
    assert(ops.push(op).drop_last() =~= ops);
}

proof fn lemma_none<'a, V, M>(ops: Seq<Op<'a, V, M>>)
    requires
        ops.len() == 0,
    ensures
        hooks_in(ops) == Seq::<Hook>::empty(),
        hidden_changes(ops) == Seq::<Op<'a, V, M>>::empty(),
{
    reveal(hooks_in);
    reveal(hidden_changes);
}

proof fn lemma_join<'a, V, M>(a: Seq<Op<'a, V, M>>, b: Seq<Op<'a, V, M>>)
    ensures
        hooks_in(a + b) == hooks_in(a) + hooks_in(b),
        hidden_changes(a + b) == hidden_changes(a) + hidden_changes(b),
    decreases b.len(),
{
    reveal(hooks_in);
    reveal(hidden_changes);
    if b.len() == 0 {
        assert(a + b =~= a);
        assert(hooks_in(a) + hooks_in(b) =~= hooks_in(a));
        assert(hidden_changes(a) + hidden_changes(b) =~= hidden_changes(a));
    } else {
        assert((a + b).drop_last() =~= a + b.drop_last());
        lemma_join(a, b.drop_last());
        assert(hooks_in(a + b) =~= hooks_in(a) + hooks_in(b));
        assert(hidden_changes(a + b) =~= hidden_changes(a) + hidden_changes(b));
    }
}

proof fn lemma_one<'a, V, M>(a: Op<'a, V, M>)
    ensures
        hooks_in(seq![a]) == hook_of(a),
        hidden_changes(seq![a]) == hidden_change(a),
{
    let none = Seq::<Op<'a, V, M>>::empty();
    lemma_none(none);
    lemma_push(none, a);
    assert(hooks_in(seq![a]) =~= hook_of(a));
    assert(hidden_changes(seq![a]) =~= hidden_change(a));
}

proof fn lemma_two<'a, V, M>(a: Op<'a, V, M>, b: Op<'a, V, M>)
    ensures
        hooks_in(seq![a, b]) == hook_of(a) + hook_of(b),
        hidden_changes(seq![a, b]) == hidden_change(a) + hidden_change(b),
{
    lemma_one(a);
    lemma_push(seq![a], b);
    assert(seq![a].push(b) =~= seq![a, b]);
}

proof fn lemma_three<'a, V, M>(a: Op<'a, V, M>, b: Op<'a, V, M>, c: Op<'a, V, M>)
    ensures
        hooks_in(seq![a, b, c]) == hook_of(a) + hook_of(b) + hook_of(c),
        hidden_changes(seq![a, b, c]) == hidden_change(a) + hidden_change(b) + hidden_change(c),
{
    lemma_two(a, b);
    lemma_push(seq![a, b], c);
    assert(seq![a, b].push(c) =~= seq![a, b, c]);
}

proof fn lemma_five<'a, V, M>(
    a: Op<'a, V, M>,
    b: Op<'a, V, M>,
    c: Op<'a, V, M>,
    d: Op<'a, V, M>,
    e: Op<'a, V, M>,
)
    ensures
        hooks_in(seq![a, b, c, d, e]) == hook_of(a) + hook_of(b) + hook_of(c) + hook_of(d)
            + hook_of(e),
        hidden_changes(seq![a, b, c, d, e]) == hidden_change(a) + hidden_change(b) + hidden_change(
            c,
        ) + hidden_change(d) + hidden_change(e),
{
    lemma_three(a, b, c);
    lemma_push(seq![a, b, c], d);
    lemma_push(seq![a, b, c].push(d), e);
    assert(seq![a, b, c].push(d).push(e) =~= seq![a, b, c, d, e]);
}

/// A residual connection: adding a buffer to the hidden values.
pub open spec fn residual<'a, V, M>(from: Buffer) -> Seq<Op<'a, V, M>> {
    seq![Op::Add { from, to: Buffer::X }]
}

/// The hooks of a layer, in the order in which they are reached.
pub open spec fn layer_hooks(index: usize) -> Seq<Hook> {
    seq![
        Hook::PreAtt(index),
        Hook::PostAttLayerNorm(index),
        Hook::PreAttLinear(index),
        Hook::PostAttLinear(index),
        Hook::PreAttRetention(index),
        Hook::PostAttRetention(index),
        Hook::PreAttOut(index),
        Hook::PostAttOut(index),
        Hook::PostAtt(index),
        Hook::PreFfn(index),
        Hook::PostFfnLayerNorm(index),
        Hook::PreFfnLinear(index),
        Hook::PostFfnGate(index),
        Hook::PostFfnLinear(index),
        Hook::PostFfn(index),
    ]
}

proof fn lemma_linear<'a, V, M>(
    matrix: &'a M,
    bias: &'a Option<V>,
    input: Buffer,
    output: Buffer,
    num_token: usize,
)
    requires
        output != Buffer::X,
    ensures
        hooks_in(linear_ops(matrix, bias, input, output, num_token)) == Seq::<Hook>::empty(),
        hidden_changes(linear_ops(matrix, bias, input, output, num_token)) == Seq::<
            Op<'a, V, M>,
        >::empty(),
{
    let ops = linear_ops(matrix, bias, input, output, num_token);
    let first = matmul::<V, M>(matrix, input, output, Activation::Identity, num_token);
    lemma_none(Seq::<Op<'a, V, M>>::empty());
    lemma_one(first);
    lemma_join(seq![first], bias_ops(bias, output));
    if let Some(bias) = bias {
        lemma_one::<V, M>(Op::AddBias { bias, x: output });
    }
    assert(hooks_in(ops) =~= Seq::<Hook>::empty());
    assert(hidden_changes(ops) =~= Seq::<Op<'a, V, M>>::empty());
}

proof fn lemma_projections<'a, V, M>(att: &'a Att<V, M>, num_token: usize)
    ensures
        hooks_in(projection_ops(att, num_token)) == Seq::<Hook>::empty(),
        hidden_changes(projection_ops(att, num_token)) == Seq::<Op<'a, V, M>>::empty(),
{
    let q = linear_ops(&att.q_proj, &att.q_bias, Buffer::AttX, Buffer::AttQ, num_token);
    let k = linear_ops(&att.k_proj, &att.k_bias, Buffer::AttX, Buffer::AttK, num_token);
    let v = linear_ops(&att.v_proj, &att.v_bias, Buffer::AttX, Buffer::AttV, num_token);
    let g = linear_ops(&att.g_proj, &att.g_bias, Buffer::AttX, Buffer::AttG, num_token);
    lemma_linear(&att.q_proj, &att.q_bias, Buffer::AttX, Buffer::AttQ, num_token);
    lemma_linear(&att.k_proj, &att.k_bias, Buffer::AttX, Buffer::AttK, num_token);
    lemma_linear(&att.v_proj, &att.v_bias, Buffer::AttX, Buffer::AttV, num_token);
    lemma_linear(&att.g_proj, &att.g_bias, Buffer::AttX, Buffer::AttG, num_token);
    lemma_join(q, k);
    lemma_join(q + k, v);
    lemma_join(q + k + v, g);
    assert(hooks_in(q + k + v + g) =~= Seq::<Hook>::empty());
    assert(hidden_changes(q + k + v + g) =~= Seq::<Op<'a, V, M>>::empty());
}

proof fn lemma_norm<'a, V, M>(norm: &'a Option<RmsNorm<V>>, x: Buffer, custom: CustomInfo)
    requires
        x != Buffer::X,
    ensures
        hooks_in(norm_ops::<V, M>(norm, x, custom)) == Seq::<Hook>::empty(),
        hidden_changes(norm_ops::<V, M>(norm, x, custom)) == Seq::<Op<'a, V, M>>::empty(),
{
    let ops = norm_ops::<V, M>(norm, x, custom);
    if ops.len() == 0 {
        lemma_none(ops);
    } else {
        lemma_one(ops[0]);
        assert(ops =~= seq![ops[0]]);
    }
}

proof fn lemma_retention<'a, V, M>(
    att: &'a Att<V, M>,
    index: usize,
    info: ModelInfo,
    custom: CustomInfo,
)
    ensures
        hooks_in(retention_ops(att, index, info, custom)) == seq![
            Hook::PreAttRetention(index),
            Hook::PostAttRetention(index),
        ],
        hidden_changes(retention_ops(att, index, info, custom)) == Seq::<Op<'a, V, M>>::empty(),
{
    let ops = retention_ops(att, index, info, custom);
    let q = norm_ops::<V, M>(&att.q_norm, Buffer::AttQ, custom);
    let k = norm_ops::<V, M>(&att.k_norm, Buffer::AttK, custom);
    let rest = ops.skip((q + k).len() as int);
    lemma_norm::<V, M>(&att.q_norm, Buffer::AttQ, custom);
    lemma_norm::<V, M>(&att.k_norm, Buffer::AttK, custom);
    lemma_join(q, k);
    lemma_join(q + k, rest);
    lemma_five(rest[0], rest[1], rest[2], rest[3], rest[4]);
    assert(rest =~= seq![rest[0], rest[1], rest[2], rest[3], rest[4]]);
    assert(ops =~= q + k + rest);
    assert(hooks_in(ops) =~= seq![Hook::PreAttRetention(index), Hook::PostAttRetention(index)]);
    assert(hidden_changes(ops) =~= Seq::<Op<'a, V, M>>::empty());
}

proof fn lemma_att<'a, V, M>(
    layer: &'a Layer<V, M>,
    index: usize,
    num_token: usize,
    info: ModelInfo,
    custom: CustomInfo,
)
    ensures
        hooks_in(att_ops(layer, index, num_token, info, custom)) == layer_hooks(index).take(9),
        hidden_changes(att_ops(layer, index, num_token, info, custom)) == residual::<V, M>(
            Buffer::AttX,
        ),
{
    let att = &layer.att;
    let a: Seq<Op<'a, V, M>> = seq![
        Op::Blit { from: Buffer::X, to: Buffer::AttX },
        Op::Hook(Hook::PreAtt(index)),
        Op::RmsNorm {
            w: &layer.input_ln.w,
            b: &layer.input_ln.b,
            x: Buffer::AttX,
            eps: RMS_EPS_BITS,
        },
        Op::Hook(Hook::PostAttLayerNorm(index)),
        Op::Hook(Hook::PreAttLinear(index)),
    ];
    let b = projection_ops(att, num_token);
    let c: Seq<Op<'a, V, M>> = seq![Op::Hook(Hook::PostAttLinear(index))];
    let d = retention_ops(att, index, info, custom);
    let e: Seq<Op<'a, V, M>> = seq![Op::Hook(Hook::PreAttOut(index))];
    let f = linear_ops(&att.o_proj, &att.o_bias, Buffer::AttO, Buffer::AttX, num_token);
    let g: Seq<Op<'a, V, M>> = seq![
        Op::Hook(Hook::PostAttOut(index)),
        Op::Add { from: Buffer::AttX, to: Buffer::X },
        Op::Hook(Hook::PostAtt(index)),
    ];
    lemma_five(a[0], a[1], a[2], a[3], a[4]);
    lemma_projections(att, num_token);
    lemma_one(c[0]);
    lemma_retention(att, index, info, custom);
    lemma_one(e[0]);
    lemma_linear(&att.o_proj, &att.o_bias, Buffer::AttO, Buffer::AttX, num_token);
    lemma_three(g[0], g[1], g[2]);
    lemma_join(a, b);
    lemma_join(a + b, c);
    lemma_join(a + b + c, d);
    lemma_join(a + b + c + d, e);
    lemma_join(a + b + c + d + e, f);
    lemma_join(a + b + c + d + e + f, g);
    let ops = att_ops(layer, index, num_token, info, custom);
    assert(ops == a + b + c + d + e + f + g);
    assert(hooks_in(ops) =~= layer_hooks(index).take(9));
    assert(hidden_changes(ops) =~= residual::<V, M>(Buffer::AttX));
}

proof fn lemma_ffn<'a, V, M>(
    layer: &'a Layer<V, M>,
    index: usize,
    num_token: usize,
    custom: CustomInfo,
)
    ensures
        hooks_in(ffn_ops(layer, index, num_token, custom)) == layer_hooks(index).skip(9),
        hidden_changes(ffn_ops(layer, index, num_token, custom)) == residual::<V, M>(
            Buffer::FfnDown,
        ),
{
    let a: Seq<Op<'a, V, M>> = seq![
        Op::Blit { from: Buffer::X, to: Buffer::FfnX },
        Op::Hook(Hook::PreFfn(index)),
        Op::RmsNorm {
            w: &layer.post_att_ln.w,
            b: &layer.post_att_ln.b,
            x: Buffer::FfnX,
            eps: RMS_EPS_BITS,
        },
        Op::Hook(Hook::PostFfnLayerNorm(index)),
        Op::Hook(Hook::PreFfnLinear(index)),
    ];
    let net = ffn_net_ops(&layer.ffn, index, num_token, custom);
    let c: Seq<Op<'a, V, M>> = seq![
        Op::Hook(Hook::PostFfnLinear(index)),
        Op::Add { from: Buffer::FfnDown, to: Buffer::X },
        Op::Hook(Hook::PostFfn(index)),
    ];
    lemma_five(a[0], a[1], a[2], a[3], a[4]);
    lemma_ffn_net(&layer.ffn, index, num_token, custom);
    lemma_three(c[0], c[1], c[2]);
    lemma_join(a, net);
    lemma_join(a + net, c);
    let ops = ffn_ops(layer, index, num_token, custom);
    assert(ops == a + net + c);
    assert(hooks_in(ops) =~= layer_hooks(index).skip(9));
    assert(hidden_changes(ops) =~= residual::<V, M>(Buffer::FfnDown));
}

proof fn lemma_ffn_net<'a, V, M>(
    ffn: &'a Ffn<V, M>,
    index: usize,
    num_token: usize,
    custom: CustomInfo,
)
    ensures
        hooks_in(ffn_net_ops(ffn, index, num_token, custom)) == seq![Hook::PostFfnGate(index)],
        hidden_changes(ffn_net_ops(ffn, index, num_token, custom)) == Seq::<
            Op<'a, V, M>,
        >::empty(),
{
    let net = ffn_net_ops(ffn, index, num_token, custom);
    match ffn {
        Ffn::Gated { .. } => {
            lemma_five(net[0], net[1], net[2], net[3], net[4]);
            assert(net =~= seq![net[0], net[1], net[2], net[3], net[4]]);
        },
        Ffn::Dense { c_fc, c_fc_bias, c_proj, c_proj_bias } => {
            let a = linear_ops(c_fc, c_fc_bias, Buffer::FfnX, Buffer::FfnGate, num_token);
            let b: Seq<Op<'a, V, M>> = seq![
                Op::Activate { x: Buffer::FfnGate, act: custom.hidden_act },
                Op::Hook(Hook::PostFfnGate(index)),
            ];
            let c = linear_ops(c_proj, c_proj_bias, Buffer::FfnGate, Buffer::FfnDown, num_token);
            lemma_linear(c_fc, c_fc_bias, Buffer::FfnX, Buffer::FfnGate, num_token);
            lemma_two(b[0], b[1]);
            lemma_linear(c_proj, c_proj_bias, Buffer::FfnGate, Buffer::FfnDown, num_token);
            lemma_join(a, b);
            lemma_join(a + b, c);
            assert(net == a + b + c);
        },
    }
    assert(hooks_in(net) =~= seq![Hook::PostFfnGate(index)]);
    assert(hidden_changes(net) =~= Seq::<Op<'a, V, M>>::empty());
}

proof fn lemma_layer<V, M>(
    layer: &Layer<V, M>,
    index: usize,
    num_token: usize,
    rescale: usize,
    info: ModelInfo,
)
    ensures
        hooks_in(layer_ops(layer, index, num_token, rescale, info)) == layer_hooks(index),
        hidden_changes(layer_ops(layer, index, num_token, rescale, info)) == residual(Buffer::AttX)
            + residual(Buffer::FfnDown) + rescale_ops::<V, M>(index, rescale),
{
    let custom = info.custom->Brumby_0;
    let a = att_ops(layer, index, num_token, info, custom);
    let b = ffn_ops(layer, index, num_token, custom);
    let c = rescale_ops::<V, M>(index, rescale);
    lemma_att(layer, index, num_token, info, custom);
    lemma_ffn(layer, index, num_token, custom);
    lemma_none(Seq::<Op<'_, V, M>>::empty());
    lemma_one::<V, M>(Op::Affine { x: Buffer::X, scale: HALF_BITS, offset: ZERO_BITS });
    lemma_join(a, b);
    lemma_join(a + b, c);
    assert(hooks_in(a + b + c) =~= layer_hooks(index));
    assert(hidden_changes(a + b + c) =~= residual(Buffer::AttX) + residual(Buffer::FfnDown) + c);
}

/// A layer reaches each of its hooks once, in order, whatever biases and norms it has.
pub proof fn layer_reaches_hooks<V, M>(
    layer: &Layer<V, M>,
    index: usize,
    num_token: usize,
    rescale: usize,
    info: ModelInfo,
)
    ensures
        hooks_in(layer_ops(layer, index, num_token, rescale, info)) == layer_hooks(index),
{
    lemma_layer(layer, index, num_token, rescale, info);
}

/// A layer changes the hidden values by its two residual connections alone, and by
/// halving them where they are rescaled.
pub proof fn layer_is_residual<V, M>(
    layer: &Layer<V, M>,
    index: usize,
    num_token: usize,
    rescale: usize,
    info: ModelInfo,
)
    ensures
        hidden_changes(layer_ops(layer, index, num_token, rescale, info)) == residual(Buffer::AttX)
            + residual(Buffer::FfnDown) + rescale_ops::<V, M>(index, rescale),
{
    lemma_layer(layer, index, num_token, rescale, info);
}

/// Unless it is set, no layer halves the hidden values.
pub proof fn default_does_not_rescale<V, M>(index: usize)
    requires
        index < usize::MAX - 1,
    ensures
        rescale_ops::<V, M>(index, DEFAULT_RESCALE) == Seq::<Op<'_, V, M>>::empty(),
{
    vstd::arithmetic::div_mod::lemma_small_mod((index + 1) as nat, DEFAULT_RESCALE as nat);
}

/// The hooks of the first `count` layers.
pub open spec fn layers_hooks(count: nat) -> Seq<Hook>
    decreases count,
{
    if count == 0 {
        Seq::empty()
    } else {
        layers_hooks((count - 1) as nat) + layer_hooks((count - 1) as usize)
    }
}

proof fn lemma_layers_hooks<V, M>(
    layers: Seq<Layer<V, M>>,
    count: nat,
    num_token: usize,
    rescale: usize,
    sep: usize,
    info: ModelInfo,
)
    ensures
        hooks_in(layers_ops(layers, count, num_token, rescale, sep, info)) == layers_hooks(count),
    decreases count,
{
    lemma_none(Seq::<Op<'_, V, M>>::empty());
    if count > 0 {
        let before = (count - 1) as nat;
        let index = before as usize;
        let layer = layer_ops(&layers[index as int], index, num_token, rescale, info);
        let done = layers_ops(layers, before, num_token, rescale, sep, info);
        let end = sep_ops::<V, M>(index, sep);
        lemma_layers_hooks(layers, before, num_token, rescale, sep, info);
        layer_reaches_hooks(&layers[index as int], index, num_token, rescale, info);
        lemma_join(done + layer, end);
        lemma_join(done, layer);
        lemma_one::<V, M>(Op::Sep);
        assert(hooks_in(end) =~= Seq::<Hook>::empty());
        assert(hooks_in(done + layer + end) =~= layers_hooks(count));
    }
}

/// An inference reaches the hook after the embedding, then those of each layer, then
/// those of the head if there is an output, each once.
pub proof fn inference_reaches_hooks<V, M, E>(
    model: Model<V, M, E>,
    num_token: usize,
    num_header: usize,
)
    requires
        num_token > 0,
    ensures
        hooks_in(dispatch_ops(model, num_token, num_header)) == seq![Hook::PostEmbedLoaded]
            + layers_hooks(model.tensor.layers@.len()) + if num_header > 0 {
            seq![Hook::PreHead, Hook::PostHeadLayerNorm, Hook::PostHead]
        } else {
            Seq::empty()
        },
{
    let layers = model.tensor.layers@;
    lemma_layers_hooks(
        layers,
        layers.len(),
        num_token,
        model.rescale,
        model.sep,
        model.info,
    );
    let head = if num_header > 0 {
        seq![Hook::PreHead, Hook::PostHeadLayerNorm, Hook::PostHead]
    } else {
        Seq::empty()
    };
    let end = head_ops(&model.tensor.head, num_header);
    if num_header > 0 {
        lemma_five(end[0], end[1], end[2], end[3], end[4]);
        lemma_push(seq![end[0], end[1], end[2], end[3], end[4]], end[5]);
        assert(end =~= seq![end[0], end[1], end[2], end[3], end[4]].push(end[5]));
    } else {
        lemma_one::<V, M>(Op::Redirect);
    }
    assert(hooks_in(end) =~= head);
    let start: Seq<Op<'_, V, M>> = seq![
        Op::Hook(Hook::PostEmbedLoaded),
        Op::Blit { from: Buffer::Input, to: Buffer::X },
    ];
    lemma_two(start[0], start[1]);
    let all = layers_ops(layers, layers.len(), num_token, model.rescale, model.sep, model.info);
    lemma_join(start, all);
    lemma_join(start + all, end);
    assert(hooks_in(start + all + end) =~= seq![Hook::PostEmbedLoaded] + layers_hooks(layers.len())
        + head);
}

fn push_matmul<'a, V, M>(
    ops: &mut Vec<Op<'a, V, M>>,
    matrix: &'a M,
    input: Buffer,
    output: Buffer,
    act: Activation,
    num_token: usize,
)
    ensures
        final(ops)@ == old(ops)@.push(matmul(matrix, input, output, act, num_token)),
{
    ops.push(Op::Matmul { matrix, input, output, act, turbo: turbo(num_token) });
}

fn push_linear<'a, V, M>(
    ops: &mut Vec<Op<'a, V, M>>,
    matrix: &'a M,
    bias: &'a Option<V>,
    input: Buffer,
    output: Buffer,
    num_token: usize,
)
    ensures
        final(ops)@ == old(ops)@ + linear_ops(matrix, bias, input, output, num_token),
{
    let ghost before = ops@;
    push_matmul(ops, matrix, input, output, Activation::Identity, num_token);
    if let Some(bias) = bias {
        ops.push(Op::AddBias { bias, x: output });
    }
    assert(ops@ =~= before + linear_ops(matrix, bias, input, output, num_token));
}

fn push_norm<'a, V, M>(
    ops: &mut Vec<Op<'a, V, M>>,
    norm: &'a Option<RmsNorm<V>>,
    x: Buffer,
    custom: &CustomInfo,
)
    ensures
        final(ops)@ == old(ops)@ + norm_ops(norm, x, *custom),
{
    let ghost before = ops@;
    if let Some(norm) = norm {
        ops.push(
            Op::GroupRmsNorm {
                w: &norm.w,
                b: &norm.b,
                x,
                head_dim: custom.head_dim as u32,
                eps: RMS_EPS_BITS,
            },
        );
    }
    assert(ops@ =~= before + norm_ops(norm, x, *custom));
}

fn push_projections<'a, V, M>(
    ops: &mut Vec<Op<'a, V, M>>,
    att: &'a Att<V, M>,
    num_token: usize,
)
    ensures
        final(ops)@ == old(ops)@ + projection_ops(att, num_token),
{
    let ghost before = ops@;
    push_linear(ops, &att.q_proj, &att.q_bias, Buffer::AttX, Buffer::AttQ, num_token);
    push_linear(ops, &att.k_proj, &att.k_bias, Buffer::AttX, Buffer::AttK, num_token);
    push_linear(ops, &att.v_proj, &att.v_bias, Buffer::AttX, Buffer::AttV, num_token);
    push_linear(ops, &att.g_proj, &att.g_bias, Buffer::AttX, Buffer::AttG, num_token);
    assert(ops@ =~= before + projection_ops(att, num_token));
}

fn push_retention<'a, V, M>(
    ops: &mut Vec<Op<'a, V, M>>,
    att: &'a Att<V, M>,
    index: usize,
    info: &ModelInfo,
    custom: &CustomInfo,
)
    requires
        has_state(*info),
    ensures
        final(ops)@ == old(ops)@ + retention_ops(att, index, *info, *custom),
{
    let ghost before = ops@;
    let num_gate_head = num_gate_head(info, custom);
    let head_dim = info.num_emb / info.num_head;
    let theta = custom.rope_theta();
    push_norm(ops, &att.q_norm, Buffer::AttQ, custom);
    push_norm(ops, &att.k_norm, Buffer::AttK, custom);
    ops.push(
        Op::Rope {
            x: Buffer::AttQ,
            head_dim: custom.head_dim as u32,
            num_head: info.num_head as u32,
            theta,
        },
    );
    ops.push(
        Op::Rope {
            x: Buffer::AttK,
            head_dim: custom.head_dim as u32,
            num_head: custom.num_kv_head as u32,
            theta,
        },
    );
    ops.push(Op::Hook(Hook::PreAttRetention(index)));
    ops.push(
        Op::PowerRetention {
            state: StateRows { layer: index, start: 0, end: head_dim },
            head_dim: custom.head_dim as u32,
            num_head: info.num_head as u32,
            num_kv_head: custom.num_kv_head as u32,
            num_gate_head: num_gate_head as u32,
        },
    );
    ops.push(Op::Hook(Hook::PostAttRetention(index)));
    assert(ops@ =~= before + retention_ops(att, index, *info, *custom));
}

fn push_att<'a, V, M>(
    ops: &mut Vec<Op<'a, V, M>>,
    layer: &'a Layer<V, M>,
    index: usize,
    num_token: usize,
    info: &ModelInfo,
    custom: &CustomInfo,
)
    requires
        has_state(*info),
    ensures
        final(ops)@ == old(ops)@ + att_ops(layer, index, num_token, *info, *custom),
{
    let ghost before = ops@;
    ops.push(Op::Blit { from: Buffer::X, to: Buffer::AttX });
    ops.push(Op::Hook(Hook::PreAtt(index)));
    ops.push(
        Op::RmsNorm {
            w: &layer.input_ln.w,
            b: &layer.input_ln.b,
            x: Buffer::AttX,
            eps: RMS_EPS_BITS,
        },
    );
    ops.push(Op::Hook(Hook::PostAttLayerNorm(index)));
    ops.push(Op::Hook(Hook::PreAttLinear(index)));
    push_projections(ops, &layer.att, num_token);
    ops.push(Op::Hook(Hook::PostAttLinear(index)));
    push_retention(ops, &layer.att, index, info, custom);
    ops.push(Op::Hook(Hook::PreAttOut(index)));
    push_linear(
        ops,
        &layer.att.o_proj,
        &layer.att.o_bias,
        Buffer::AttO,
        Buffer::AttX,
        num_token,
    );
    ops.push(Op::Hook(Hook::PostAttOut(index)));
    ops.push(Op::Add { from: Buffer::AttX, to: Buffer::X });
    ops.push(Op::Hook(Hook::PostAtt(index)));
    assert(ops@ =~= before + att_ops(layer, index, num_token, *info, *custom));
}

fn push_ffn<'a, V, M>(
    ops: &mut Vec<Op<'a, V, M>>,
    layer: &'a Layer<V, M>,
    index: usize,
    num_token: usize,
    custom: &CustomInfo,
)
    ensures
        final(ops)@ == old(ops)@ + ffn_ops(layer, index, num_token, *custom),
{
    let ghost before = ops@;
    ops.push(Op::Blit { from: Buffer::X, to: Buffer::FfnX });
    ops.push(Op::Hook(Hook::PreFfn(index)));
    ops.push(
        Op::RmsNorm {
            w: &layer.post_att_ln.w,
            b: &layer.post_att_ln.b,
            x: Buffer::FfnX,
            eps: RMS_EPS_BITS,
        },
    );
    ops.push(Op::Hook(Hook::PostFfnLayerNorm(index)));
    ops.push(Op::Hook(Hook::PreFfnLinear(index)));
    let ghost start = ops@;
    match &layer.ffn {
        Ffn::Gated { gate_proj, up_proj, down_proj } => {
            push_matmul(
                ops,
                gate_proj,
                Buffer::FfnX,
                Buffer::FfnGate,
                Activation::Silu,
                num_token,
            );
            push_matmul(
                ops,
                up_proj,
                Buffer::FfnX,
                Buffer::FfnUp,
                Activation::Identity,
                num_token,
            );
            ops.push(Op::Hook(Hook::PostFfnGate(index)));
            ops.push(Op::Mul { from: Buffer::FfnGate, to: Buffer::FfnUp });
            push_matmul(
                ops,
                down_proj,
                Buffer::FfnUp,
                Buffer::FfnDown,
                Activation::Identity,
                num_token,
            );
        },
        Ffn::Dense { c_fc, c_fc_bias, c_proj, c_proj_bias } => {
            push_linear(ops, c_fc, c_fc_bias, Buffer::FfnX, Buffer::FfnGate, num_token);
            ops.push(Op::Activate { x: Buffer::FfnGate, act: custom.hidden_act });
            ops.push(Op::Hook(Hook::PostFfnGate(index)));
            push_linear(ops, c_proj, c_proj_bias, Buffer::FfnGate, Buffer::FfnDown, num_token);
        },
    }
    assert(ops@ =~= start + ffn_net_ops(&layer.ffn, index, num_token, *custom));
    ops.push(Op::Hook(Hook::PostFfnLinear(index)));
    ops.push(Op::Add { from: Buffer::FfnDown, to: Buffer::X });
    ops.push(Op::Hook(Hook::PostFfn(index)));
    assert(ops@ =~= before + ffn_ops(layer, index, num_token, *custom));
}

/// The operations of a layer.
pub fn dispatch_layer<'a, V, M>(
    layer: &'a Layer<V, M>,
    index: usize,
    num_token: usize,
    rescale: usize,
    info: &ModelInfo,
) -> (r: Vec<Op<'a, V, M>>)
    requires
        index < usize::MAX,
        has_state(*info),
        info.custom is Brumby,
    ensures
        r@ == layer_ops(layer, index, num_token, rescale, *info),
{
    match &info.custom {
        ModelCustomInfo::Brumby(custom) => {
            let mut ops: Vec<Op<'a, V, M>> = Vec::new();
            push_att(&mut ops, layer, index, num_token, info, custom);
            push_ffn(&mut ops, layer, index, num_token, custom);
            if rescale != 0 && (index + 1) % rescale == 0 {
                ops.push(Op::Affine { x: Buffer::X, scale: HALF_BITS, offset: ZERO_BITS });
            }
            assert(ops@ =~= layer_ops(layer, index, num_token, rescale, *info));
            ops
        },
        _ => vstd::pervasive::unreached(),
    }
}

/// The operations of the head.
pub fn dispatch_header<'a, V, M>(head: &'a Head<V, M>, num_header: usize) -> (r: Vec<Op<'a, V, M>>)
    ensures
        r@ == head_ops(head, num_header),
{
    let mut ops: Vec<Op<'a, V, M>> = Vec::new();
    ops.push(Op::Redirect);
    if num_header > 0 {
        ops.push(Op::Hook(Hook::PreHead));
        ops.push(
            Op::RmsNorm { w: &head.ln.w, b: &head.ln.b, x: Buffer::HeadX, eps: RMS_EPS_BITS },
        );
        ops.push(Op::Hook(Hook::PostHeadLayerNorm));
        push_matmul(
            &mut ops,
            &head.w,
            Buffer::HeadX,
            Buffer::HeadO,
            Activation::Identity,
            num_header,
        );
        ops.push(Op::Hook(Hook::PostHead));
    }
    assert(ops@ =~= head_ops(head, num_header));
    ops
}

impl<V, M, E> Model<V, M, E> {
    /// The operations that infer a number of tokens, of which some have an output.
    pub fn ops(&self, num_token: usize, num_header: usize) -> (r: Vec<Op<'_, V, M>>)
        requires
            has_state(self.info),
            self.info.custom is Brumby,
            self.sep > 0 || num_token == 0 || self.tensor.layers@.len() == 0,
        ensures
            r@ == dispatch_ops(*self, num_token, num_header),
    {
        let mut ops: Vec<Op<'_, V, M>> = Vec::new();
        if num_token == 0 {
            assert(ops@ =~= dispatch_ops(*self, num_token, num_header));
            return ops;
        }
        ops.push(Op::Hook(Hook::PostEmbedLoaded));
        ops.push(Op::Blit { from: Buffer::Input, to: Buffer::X });
        let ghost start = ops@;
        let layers = &self.tensor.layers;
        let mut index: usize = 0;
        assert(start + layers_ops(
            layers@,
            0,
            num_token,
            self.rescale,
            self.sep,
            self.info,
        ) =~= start);
        while index < layers.len()
            invariant
                index <= layers@.len(),
                layers@ == self.tensor.layers@,
                has_state(self.info),
                self.info.custom is Brumby,
                self.sep > 0 || layers@.len() == 0,
                ops@ == start + layers_ops(
                    layers@,
                    index as nat,
                    num_token,
                    self.rescale,
                    self.sep,
                    self.info,
                ),
            decreases layers@.len() - index,
        {
            let ghost before = ops@;
            let mut layer = dispatch_layer(
                &layers[index],
                index,
                num_token,
                self.rescale,
                &self.info,
            );
            ops.append(&mut layer);
            if (index + 1) % self.sep == 0 {
                ops.push(Op::Sep);
            }
            assert(ops@ =~= start + layers_ops(
                layers@,
                (index + 1) as nat,
                num_token,
                self.rescale,
                self.sep,
                self.info,
            ));
            index += 1;
        }
        let mut head = dispatch_header(&self.tensor.head, num_header);
        ops.append(&mut head);
        assert(ops@ =~= dispatch_ops(*self, num_token, num_header));
        ops
    }
}

} // verus!
