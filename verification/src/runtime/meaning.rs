//! What the operations of an inference compute.
//!
//! A machine runs operations on values that tell how they were computed. What a layer or a
//! model computes is then stated by a formula.

use vstd::prelude::*;

use super::brumby::{Att, CustomInfo, Ffn, Head, Hook, Layer, Model, RmsNorm};
use super::dispatch::{
    att_ops, bias_ops, dispatch_ops, ffn_net_ops, ffn_ops, head_ops, layer_ops, layers_ops,
    linear_ops, matmul, norm_ops, projection_ops, rescale_ops, retention_ops, sep_ops, Buffer, Op,
};
use super::model::{Activation, ModelInfo};
use super::state::StateRows;

verus! {

/// What a buffer or a part of the state holds, by how it was computed. Floats stand as the
/// bits of 32-bit floats.
pub enum Value<V, M> {
    /// What was there, under some number.
    Given(int),
    /// An RMS norm with weight `w` and bias `b`.
    Norm {
        w: V,
        b: V,
        eps: u32,
        of: Box<Value<V, M>>,
    },
    /// An RMS norm of each head.
    HeadNorm {
        w: V,
        b: V,
        head_dim: u32,
        eps: u32,
        of: Box<Value<V, M>>,
    },
    /// The product of a matrix and a value.
    Product(M, Box<Value<V, M>>),
    /// A function of each element.
    Applied(Activation, Box<Value<V, M>>),
    /// A value and a vector added to it.
    PlusVector(Box<Value<V, M>>, V),
    /// The sum of two values.
    Sum(Box<Value<V, M>>, Box<Value<V, M>>),
    /// The product of two values, element by element.
    Times(Box<Value<V, M>>, Box<Value<V, M>>),
    /// Heads rotated by the positions of their tokens.
    Rotated {
        cursors: Box<Value<V, M>>,
        of: Box<Value<V, M>>,
        head_dim: u32,
        num_head: u32,
        theta: u32,
    },
    /// The output of power retention.
    Retained(Box<Retention<V, M>>),
    /// The state that power retention leaves.
    Kept(Box<Retention<V, M>>),
    /// Each element times a scale, and an offset added.
    Scaled {
        of: Box<Value<V, M>>,
        scale: u32,
        offset: u32,
    },
    /// The rows of the tokens that have an output.
    Gathered(Box<Value<V, M>>),
}

/// What power retention works on.
pub struct Retention<V, M> {
    pub cursors: Value<V, M>,
    pub state: Value<V, M>,
    pub gates: Value<V, M>,
    pub queries: Value<V, M>,
    pub keys: Value<V, M>,
    pub values: Value<V, M>,
    pub head_dim: u32,
    pub num_head: u32,
    pub num_kv_head: u32,
    pub num_gate_head: u32,
}

/// The buffers, the rows of the state, and the buffers as they were when each hook was
/// reached.
#[verifier::ext_equal]
pub struct Machine<V, M> {
    pub held: Map<Buffer, Value<V, M>>,
    pub state: Map<StateRows, Value<V, M>>,
    pub seen: Map<Hook, Map<Buffer, Value<V, M>>>,
}

impl<V, M> Machine<V, M> {
    /// The machine with another value in a buffer.
    pub open spec fn put(self, x: Buffer, value: Value<V, M>) -> Machine<V, M> {
        Machine { held: self.held.insert(x, value), ..self }
    }
}

/// A function of each element. The identity changes nothing.
pub open spec fn applied<V, M>(act: Activation, value: Value<V, M>) -> Value<V, M> {
    if act == Activation::Identity {
        value
    } else {
        Value::Applied(act, Box::new(value))
    }
}

/// What an operation does. Hooks look at the buffers and add nothing.
pub open spec fn step<V, M>(op: Op<'_, V, M>, m: Machine<V, M>) -> Machine<V, M> {
    match op {
        Op::Hook(hook) => Machine { seen: m.seen.insert(hook, m.held), ..m },
        Op::Blit { from, to } => m.put(to, m.held[from]),
        Op::RmsNorm { w, b, x, eps } => m.put(
            x,
            Value::Norm { w: *w, b: *b, eps, of: Box::new(m.held[x]) },
        ),
        Op::GroupRmsNorm { w, b, x, head_dim, eps } => m.put(
            x,
            Value::HeadNorm { w: *w, b: *b, head_dim, eps, of: Box::new(m.held[x]) },
        ),
        Op::Matmul { matrix, input, output, act, turbo } => m.put(
            output,
            applied(act, Value::Product(*matrix, Box::new(m.held[input]))),
        ),
        Op::AddBias { bias, x } => m.put(x, Value::PlusVector(Box::new(m.held[x]), *bias)),
        Op::Add { from, to } => m.put(
            to,
            Value::Sum(Box::new(m.held[to]), Box::new(m.held[from])),
        ),
        Op::Mul { from, to } => m.put(
            to,
            Value::Times(Box::new(m.held[from]), Box::new(m.held[to])),
        ),
        Op::Activate { x, act } => m.put(x, applied(act, m.held[x])),
        Op::Rope { x, head_dim, num_head, theta } => m.put(
            x,
            Value::Rotated {
                cursors: Box::new(m.held[Buffer::Cursors]),
                of: Box::new(m.held[x]),
                head_dim,
                num_head,
                theta,
            },
        ),
        Op::PowerRetention { state, head_dim, num_head, num_kv_head, num_gate_head } => {
            let retention = Retention {
                cursors: m.held[Buffer::Cursors],
                state: m.state[state],
                gates: m.held[Buffer::AttG],
                queries: m.held[Buffer::AttQ],
                keys: m.held[Buffer::AttK],
                values: m.held[Buffer::AttV],
                head_dim,
                num_head,
                num_kv_head,
                num_gate_head,
            };
            Machine {
                held: m.held.insert(Buffer::AttO, Value::Retained(Box::new(retention))),
                state: m.state.insert(state, Value::Kept(Box::new(retention))),
                ..m
            }
        },
        Op::Affine { x, scale, offset } => m.put(
            x,
            Value::Scaled { of: Box::new(m.held[x]), scale, offset },
        ),
        Op::Sep => m,
        Op::Redirect => m.put(Buffer::HeadX, Value::Gathered(Box::new(m.held[Buffer::X]))),
    }
}

/// What operations do, one after the other.
#[verifier::opaque]
pub open spec fn run<V, M>(ops: Seq<Op<'_, V, M>>, m: Machine<V, M>) -> Machine<V, M>
    decreases ops.len(),
{
    if ops.len() == 0 {
        m
    } else {
        step(ops.last(), run(ops.drop_last(), m))
    }
}

proof fn lemma_run_push<'a, V, M>(ops: Seq<Op<'a, V, M>>, op: Op<'a, V, M>, m: Machine<V, M>)
    ensures
        run(ops.push(op), m) == step(op, run(ops, m)),
{
    reveal(run);
    assert(ops.push(op).drop_last() =~= ops);
}

proof fn lemma_run_none<'a, V, M>(ops: Seq<Op<'a, V, M>>, m: Machine<V, M>)
    requires
        ops.len() == 0,
    ensures
        run(ops, m) == m,
{
    reveal(run);
}

/// Running operations after others.
pub proof fn run_goes_on<'a, V, M>(
    a: Seq<Op<'a, V, M>>,
    b: Seq<Op<'a, V, M>>,
    m: Machine<V, M>,
)
    ensures
        run(a + b, m) == run(b, run(a, m)),
    decreases b.len(),
{
    if b.len() == 0 {
        lemma_run_none(b, run(a, m));
        assert(a + b =~= a);
    } else {
        let front = b.drop_last();
        run_goes_on(a, front, m);
        lemma_run_push(a + front, b.last(), m);
        lemma_run_push(front, b.last(), run(a, m));
        assert(a + b =~= (a + front).push(b.last()));
        assert(b =~= front.push(b.last()));
    }
}

proof fn lemma_run_1<'a, V, M>(a: Op<'a, V, M>, m: Machine<V, M>)
    ensures
        run(seq![a], m) == step(a, m),
{
    lemma_run_none(Seq::<Op<'a, V, M>>::empty(), m);
    lemma_run_push(Seq::<Op<'a, V, M>>::empty(), a, m);
    assert(seq![a] =~= Seq::<Op<'a, V, M>>::empty().push(a));
}

proof fn lemma_run_2<'a, V, M>(a: Op<'a, V, M>, b: Op<'a, V, M>, m: Machine<V, M>)
    ensures
        run(seq![a, b], m) == step(b, step(a, m)),
{
    lemma_run_1(a, m);
    lemma_run_push(seq![a], b, m);
    assert(seq![a, b] =~= seq![a].push(b));
}

proof fn lemma_run_3<'a, V, M>(
    a: Op<'a, V, M>,
    b: Op<'a, V, M>,
    c: Op<'a, V, M>,
    m: Machine<V, M>,
)
    ensures
        run(seq![a, b, c], m) == step(c, step(b, step(a, m))),
{
    lemma_run_2(a, b, m);
    lemma_run_push(seq![a, b], c, m);
    assert(seq![a, b, c] =~= seq![a, b].push(c));
}

proof fn lemma_run_5<'a, V, M>(
    a: Op<'a, V, M>,
    b: Op<'a, V, M>,
    c: Op<'a, V, M>,
    d: Op<'a, V, M>,
    e: Op<'a, V, M>,
    m: Machine<V, M>,
)
    ensures
        run(seq![a, b, c, d, e], m) == step(e, step(d, step(c, step(b, step(a, m))))),
{
    lemma_run_3(a, b, c, m);
    lemma_run_push(seq![a, b, c], d, m);
    lemma_run_push(seq![a, b, c].push(d), e, m);
    assert(seq![a, b, c, d, e] =~= seq![a, b, c].push(d).push(e));
}

/// A vector added, where there is one.
pub open spec fn plus<V, M>(value: Value<V, M>, bias: Option<V>) -> Value<V, M> {
    match bias {
        Some(bias) => Value::PlusVector(Box::new(value), bias),
        None => value,
    }
}

/// The product of a matrix and a value.
pub open spec fn product<V, M>(matrix: M, value: Value<V, M>) -> Value<V, M> {
    Value::Product(matrix, Box::new(value))
}

/// The RMS norm of a value. The epsilon is one millionth.
pub open spec fn normed<V, M>(norm: RmsNorm<V>, value: Value<V, M>) -> Value<V, M> {
    Value::Norm { w: norm.w, b: norm.b, eps: 0x3586_37bd, of: Box::new(value) }
}

/// The RMS norm of each head of a value, where there is a norm.
pub open spec fn head_normed<V, M>(
    norm: Option<RmsNorm<V>>,
    head_dim: usize,
    value: Value<V, M>,
) -> Value<V, M> {
    match norm {
        Some(norm) => Value::HeadNorm {
            w: norm.w,
            b: norm.b,
            head_dim: head_dim as u32,
            eps: 0x3586_37bd,
            of: Box::new(value),
        },
        None => value,
    }
}

/// Heads rotated by the positions of their tokens.
pub open spec fn rotated<V, M>(
    cursors: Value<V, M>,
    value: Value<V, M>,
    custom: CustomInfo,
    num_head: usize,
) -> Value<V, M> {
    Value::Rotated {
        cursors: Box::new(cursors),
        of: Box::new(value),
        head_dim: custom.head_dim as u32,
        num_head: num_head as u32,
        theta: custom.rope_theta_bits,
    }
}

/// The sum of two values.
pub open spec fn sum<V, M>(a: Value<V, M>, b: Value<V, M>) -> Value<V, M> {
    Value::Sum(Box::new(a), Box::new(b))
}

/// The product of two values, element by element.
pub open spec fn times<V, M>(a: Value<V, M>, b: Value<V, M>) -> Value<V, M> {
    Value::Times(Box::new(a), Box::new(b))
}

proof fn lemma_linear<'a, V, M>(
    matrix: &'a M,
    bias: &'a Option<V>,
    input: Buffer,
    output: Buffer,
    num_token: usize,
    m: Machine<V, M>,
)
    ensures
        run(linear_ops(matrix, bias, input, output, num_token), m) == m.put(
            output,
            plus(product(*matrix, m.held[input]), *bias),
        ),
{
    let first: Seq<Op<'a, V, M>> = seq![
        matmul(matrix, input, output, Activation::Identity, num_token),
    ];
    let more: Seq<Op<'a, V, M>> = bias_ops(bias, output);
    lemma_run_1(first[0], m);
    run_goes_on(first, more, m);
    let mid = run(first, m);
    match bias {
        Some(bias) => {
            lemma_run_1(more[0], mid);
        },
        None => {
            lemma_run_none(more, mid);
        },
    }
    assert(run(first + more, m) =~= m.put(output, plus(product(*matrix, m.held[input]), *bias)));
}

proof fn lemma_norm<'a, V, M: 'a>(
    norm: &'a Option<RmsNorm<V>>,
    x: Buffer,
    custom: CustomInfo,
    m: Machine<V, M>,
)
    requires
        m.held.contains_key(x),
    ensures
        run(norm_ops(norm, x, custom), m) == m.put(
            x,
            head_normed(*norm, custom.head_dim, m.held[x]),
        ),
{
    let ops: Seq<Op<'a, V, M>> = norm_ops(norm, x, custom);
    match norm {
        Some(norm) => {
            lemma_run_1(ops[0], m);
        },
        None => {
            lemma_run_none(ops, m);
        },
    }
    assert(run(ops, m) =~= m.put(x, head_normed(*norm, custom.head_dim, m.held[x])));
}

proof fn lemma_projections<V, M>(att: &Att<V, M>, num_token: usize, m: Machine<V, M>)
    ensures
        ({
            let n = m.held[Buffer::AttX];
            run(projection_ops(att, num_token), m) == m.put(
                Buffer::AttQ,
                plus(product(att.q_proj, n), att.q_bias),
            ).put(Buffer::AttK, plus(product(att.k_proj, n), att.k_bias)).put(
                Buffer::AttV,
                plus(product(att.v_proj, n), att.v_bias),
            ).put(Buffer::AttG, plus(product(att.g_proj, n), att.g_bias))
        }),
{
    let x = Buffer::AttX;
    let q = linear_ops(&att.q_proj, &att.q_bias, x, Buffer::AttQ, num_token);
    let k = linear_ops(&att.k_proj, &att.k_bias, x, Buffer::AttK, num_token);
    let v = linear_ops(&att.v_proj, &att.v_bias, x, Buffer::AttV, num_token);
    let g = linear_ops(&att.g_proj, &att.g_bias, x, Buffer::AttG, num_token);
    lemma_linear(&att.q_proj, &att.q_bias, x, Buffer::AttQ, num_token, m);
    let m1 = run(q, m);
    lemma_linear(&att.k_proj, &att.k_bias, x, Buffer::AttK, num_token, m1);
    let m2 = run(k, m1);
    lemma_linear(&att.v_proj, &att.v_bias, x, Buffer::AttV, num_token, m2);
    let m3 = run(v, m2);
    lemma_linear(&att.g_proj, &att.g_bias, x, Buffer::AttG, num_token, m3);
    run_goes_on(q, k, m);
    run_goes_on(q + k, v, m);
    run_goes_on(q + k + v, g, m);
}

/// The rows of the state that hold the retention state of a layer: as many as the
/// embedding has elements for each head.
pub open spec fn retention_rows(index: usize, info: ModelInfo) -> StateRows {
    StateRows { layer: index, start: 0, end: (info.num_emb as int / info.num_head as int) as usize }
}

proof fn lemma_retention<V, M>(
    att: &Att<V, M>,
    index: usize,
    info: ModelInfo,
    custom: CustomInfo,
    m: Machine<V, M>,
)
    requires
        m.held.contains_key(Buffer::AttQ),
        m.held.contains_key(Buffer::AttK),
    ensures
        ({
            let after = run(retention_ops(att, index, info, custom), m);
            let cursors = m.held[Buffer::Cursors];
            let retention = Retention {
                cursors,
                state: m.state[retention_rows(index, info)],
                gates: m.held[Buffer::AttG],
                queries: rotated(
                    cursors,
                    head_normed(att.q_norm, custom.head_dim, m.held[Buffer::AttQ]),
                    custom,
                    info.num_head,
                ),
                keys: rotated(
                    cursors,
                    head_normed(att.k_norm, custom.head_dim, m.held[Buffer::AttK]),
                    custom,
                    custom.num_kv_head,
                ),
                values: m.held[Buffer::AttV],
                head_dim: custom.head_dim as u32,
                num_head: info.num_head as u32,
                num_kv_head: custom.num_kv_head as u32,
                num_gate_head: (if custom.has_qk_norm {
                    info.num_head
                } else {
                    custom.num_kv_head
                }) as u32,
            };
            &&& after.held[Buffer::AttO] == Value::Retained(Box::new(retention))
            &&& after.state == m.state.insert(
                retention_rows(index, info),
                Value::Kept(Box::new(retention)),
            )
            &&& after.held[Buffer::X] == m.held[Buffer::X]
            &&& after.held[Buffer::AttX] == m.held[Buffer::AttX]
            &&& after.held[Buffer::FfnGate] == m.held[Buffer::FfnGate]
            &&& after.held[Buffer::FfnDown] == m.held[Buffer::FfnDown]
            &&& after.held[Buffer::Cursors] == cursors
            &&& after.held[Buffer::Input] == m.held[Buffer::Input]
            &&& after.seen[Hook::PreAttRetention(index)][Buffer::AttQ] == retention.queries
            &&& after.seen[Hook::PreAttRetention(index)][Buffer::AttK] == retention.keys
            &&& after.seen[Hook::PreAttRetention(index)][Buffer::AttO] == m.held[Buffer::AttO]
            &&& after.seen[Hook::PostAttRetention(index)][Buffer::AttO] == Value::Retained(
                Box::new(retention),
            )
            &&& forall|h: Hook|
                h != Hook::PreAttRetention(index) && h != Hook::PostAttRetention(index)
                    ==> #[trigger] after.seen[h] == m.seen[h]
        }),
{
    let q: Seq<Op<'_, V, M>> = norm_ops(&att.q_norm, Buffer::AttQ, custom);
    let k: Seq<Op<'_, V, M>> = norm_ops(&att.k_norm, Buffer::AttK, custom);
    let all = retention_ops(att, index, info, custom);
    let rest = all.skip((q.len() + k.len()) as int);
    lemma_norm(&att.q_norm, Buffer::AttQ, custom, m);
    let m1 = run(q, m);
    lemma_norm(&att.k_norm, Buffer::AttK, custom, m1);
    let m2 = run(k, m1);
    run_goes_on(q, k, m);
    assert(rest =~= seq![rest[0], rest[1], rest[2], rest[3], rest[4]]);
    assert(all =~= q + k + rest);
    run_goes_on(q + k, rest, m);
    lemma_run_5(rest[0], rest[1], rest[2], rest[3], rest[4], m2);
}

/// What a layer computes, without hooks, by the formula that is written out here: the
/// attention is the output projection of the power retention of the rotated queries and
/// keys, the values and the gates, all projected from the norm of the hidden values; the
/// network is `down_proj(silu(gate_proj(n)) * up_proj(n))` or
/// `c_proj(act(c_fc(n) + bias)) + bias` of the norm of the hidden values after attention;
/// both are added to the hidden values, which are halved where they are rescaled. Of the
/// state only the rows of the layer change.
pub proof fn layer_computes<V, M>(
    layer: &Layer<V, M>,
    index: usize,
    num_token: usize,
    rescale: usize,
    info: ModelInfo,
    m: Machine<V, M>,
)
    ensures
        ({
            let custom = info.custom->Brumby_0;
            let after = run(layer_ops(layer, index, num_token, rescale, info), m);
            let att = layer.att;
            let x = m.held[Buffer::X];
            let cursors = m.held[Buffer::Cursors];
            let n = normed(layer.input_ln, x);
            let retention = Retention {
                cursors,
                state: m.state[retention_rows(index, info)],
                gates: plus(product(att.g_proj, n), att.g_bias),
                queries: rotated(
                    cursors,
                    head_normed(
                        att.q_norm,
                        custom.head_dim,
                        plus(product(att.q_proj, n), att.q_bias),
                    ),
                    custom,
                    info.num_head,
                ),
                keys: rotated(
                    cursors,
                    head_normed(
                        att.k_norm,
                        custom.head_dim,
                        plus(product(att.k_proj, n), att.k_bias),
                    ),
                    custom,
                    custom.num_kv_head,
                ),
                values: plus(product(att.v_proj, n), att.v_bias),
                head_dim: custom.head_dim as u32,
                num_head: info.num_head as u32,
                num_kv_head: custom.num_kv_head as u32,
                num_gate_head: (if custom.has_qk_norm {
                    info.num_head
                } else {
                    custom.num_kv_head
                }) as u32,
            };
            let attention = plus(
                product(att.o_proj, Value::Retained(Box::new(retention))),
                att.o_bias,
            );
            let h = sum(x, attention);
            let n2 = normed(layer.post_att_ln, h);
            let network = match layer.ffn {
                Ffn::Gated { gate_proj, up_proj, down_proj } => product(
                    down_proj,
                    times(
                        Value::Applied(Activation::Silu, Box::new(product(gate_proj, n2))),
                        product(up_proj, n2),
                    ),
                ),
                Ffn::Dense { c_fc, c_fc_bias, c_proj, c_proj_bias } => plus(
                    product(
                        c_proj,
                        applied(custom.hidden_act, plus(product(c_fc, n2), c_fc_bias)),
                    ),
                    c_proj_bias,
                ),
            };
            let y = sum(h, network);
            &&& after.held[Buffer::FfnDown] == network
            &&& after.held[Buffer::X] == if rescale != 0 && (index + 1) % (rescale as int) == 0 {
                Value::Scaled { of: Box::new(y), scale: 0x3f00_0000, offset: 0 }
            } else {
                y
            }
            &&& after.held[Buffer::Cursors] == cursors
            &&& after.held[Buffer::Input] == m.held[Buffer::Input]
            &&& after.state == m.state.insert(
                retention_rows(index, info),
                Value::Kept(Box::new(retention)),
            )
        }),
{
    let custom = info.custom->Brumby_0;
    let a = att_ops(layer, index, num_token, info, custom);
    let b = ffn_ops(layer, index, num_token, custom);
    let c: Seq<Op<'_, V, M>> = rescale_ops(index, rescale);
    run_goes_on(a, b, m);
    run_goes_on(a + b, c, m);
    lemma_att(layer, index, num_token, info, custom, m);
    let mid = run(a, m);
    lemma_ffn(layer, index, num_token, custom, mid);
    let end = run(b, mid);
    if c.len() == 0 {
        lemma_run_none(c, end);
    } else {
        lemma_run_1(c[0], end);
        assert(c =~= seq![c[0]]);
    }
}

/// What each hook of a layer sees: the buffers at the point of the computation that it is
/// named for.
pub proof fn layer_hooks_see<V, M>(
    layer: &Layer<V, M>,
    index: usize,
    num_token: usize,
    rescale: usize,
    info: ModelInfo,
    m: Machine<V, M>,
)
    ensures
        ({
            let custom = info.custom->Brumby_0;
            let after = run(layer_ops(layer, index, num_token, rescale, info), m);
            let att = layer.att;
            let x = m.held[Buffer::X];
            let cursors = m.held[Buffer::Cursors];
            let n = normed(layer.input_ln, x);
            let retention = Retention {
                cursors,
                state: m.state[retention_rows(index, info)],
                gates: plus(product(att.g_proj, n), att.g_bias),
                queries: rotated(
                    cursors,
                    head_normed(
                        att.q_norm,
                        custom.head_dim,
                        plus(product(att.q_proj, n), att.q_bias),
                    ),
                    custom,
                    info.num_head,
                ),
                keys: rotated(
                    cursors,
                    head_normed(
                        att.k_norm,
                        custom.head_dim,
                        plus(product(att.k_proj, n), att.k_bias),
                    ),
                    custom,
                    custom.num_kv_head,
                ),
                values: plus(product(att.v_proj, n), att.v_bias),
                head_dim: custom.head_dim as u32,
                num_head: info.num_head as u32,
                num_kv_head: custom.num_kv_head as u32,
                num_gate_head: (if custom.has_qk_norm {
                    info.num_head
                } else {
                    custom.num_kv_head
                }) as u32,
            };
            let attention = plus(
                product(att.o_proj, Value::Retained(Box::new(retention))),
                att.o_bias,
            );
            &&& after.seen[Hook::PreAtt(index)][Buffer::X] == x
            &&& after.seen[Hook::PreAtt(index)][Buffer::AttX] == x
            &&& after.seen[Hook::PostAttLayerNorm(index)][Buffer::AttX] == n
            &&& after.seen[Hook::PreAttLinear(index)][Buffer::AttX] == n
            &&& after.seen[Hook::PreAttLinear(index)][Buffer::AttQ] == m.held[Buffer::AttQ]
            &&& after.seen[Hook::PostAttLinear(index)][Buffer::AttQ] == plus(
                product(att.q_proj, n),
                att.q_bias,
            )
            &&& after.seen[Hook::PostAttLinear(index)][Buffer::AttK] == plus(
                product(att.k_proj, n),
                att.k_bias,
            )
            &&& after.seen[Hook::PostAttLinear(index)][Buffer::AttV] == retention.values
            &&& after.seen[Hook::PostAttLinear(index)][Buffer::AttG] == retention.gates
            &&& after.seen[Hook::PreAttRetention(index)][Buffer::AttQ] == retention.queries
            &&& after.seen[Hook::PreAttRetention(index)][Buffer::AttK] == retention.keys
            &&& after.seen[Hook::PreAttRetention(index)][Buffer::AttO] == m.held[Buffer::AttO]
            &&& after.seen[Hook::PostAttRetention(index)][Buffer::AttO] == Value::Retained(
                Box::new(retention),
            )
            &&& after.seen[Hook::PreAttOut(index)][Buffer::AttO] == Value::Retained(
                Box::new(retention),
            )
            &&& after.seen[Hook::PreAttOut(index)][Buffer::AttX] == n
            &&& after.seen[Hook::PostAttOut(index)][Buffer::AttX] == attention
            &&& after.seen[Hook::PostAttOut(index)][Buffer::X] == x
            &&& after.seen[Hook::PostAtt(index)][Buffer::X] == sum(x, attention)
        }),
        ({
            let custom = info.custom->Brumby_0;
            let after = run(layer_ops(layer, index, num_token, rescale, info), m);
            let h = after.seen[Hook::PostAtt(index)][Buffer::X];
            let n = normed(layer.post_att_ln, h);
            let network = after.held[Buffer::FfnDown];
            &&& after.seen[Hook::PreFfn(index)][Buffer::X] == h
            &&& after.seen[Hook::PreFfn(index)][Buffer::FfnX] == h
            &&& after.seen[Hook::PostFfnLayerNorm(index)][Buffer::FfnX] == n
            &&& after.seen[Hook::PreFfnLinear(index)][Buffer::FfnX] == n
            &&& after.seen[Hook::PreFfnLinear(index)][Buffer::FfnGate] == m.held[Buffer::FfnGate]
            &&& match layer.ffn {
                Ffn::Gated { gate_proj, up_proj, .. } => {
                    &&& after.seen[Hook::PostFfnGate(index)][Buffer::FfnGate] == Value::Applied(
                        Activation::Silu,
                        Box::new(product(gate_proj, n)),
                    )
                    &&& after.seen[Hook::PostFfnGate(index)][Buffer::FfnUp] == product(up_proj, n)
                },
                Ffn::Dense { c_fc, c_fc_bias, .. } => {
                    &&& after.seen[Hook::PostFfnGate(index)][Buffer::FfnGate] == applied(
                        custom.hidden_act,
                        plus(product(c_fc, n), c_fc_bias),
                    )
                },
            }
            &&& after.seen[Hook::PostFfnGate(index)][Buffer::FfnDown] == m.held[Buffer::FfnDown]
            &&& after.seen[Hook::PostFfnLinear(index)][Buffer::FfnDown] == network
            &&& after.seen[Hook::PostFfnLinear(index)][Buffer::X] == h
            &&& after.seen[Hook::PostFfn(index)][Buffer::X] == sum(h, network)
        }),
{
    let custom = info.custom->Brumby_0;
    let a = att_ops(layer, index, num_token, info, custom);
    let b = ffn_ops(layer, index, num_token, custom);
    let c: Seq<Op<'_, V, M>> = rescale_ops(index, rescale);
    run_goes_on(a, b, m);
    run_goes_on(a + b, c, m);
    lemma_att(layer, index, num_token, info, custom, m);
    let mid = run(a, m);
    lemma_ffn(layer, index, num_token, custom, mid);
    let end = run(b, mid);
    if c.len() == 0 {
        lemma_run_none(c, end);
    } else {
        lemma_run_1(c[0], end);
        assert(c =~= seq![c[0]]);
    }
}

proof fn lemma_att<V, M>(
    layer: &Layer<V, M>,
    index: usize,
    num_token: usize,
    info: ModelInfo,
    custom: CustomInfo,
    m: Machine<V, M>,
)
    ensures
        ({
            let after = run(att_ops(layer, index, num_token, info, custom), m);
            let att = layer.att;
            let x = m.held[Buffer::X];
            let cursors = m.held[Buffer::Cursors];
            let n = normed(layer.input_ln, x);
            let retention = Retention {
                cursors,
                state: m.state[retention_rows(index, info)],
                gates: plus(product(att.g_proj, n), att.g_bias),
                queries: rotated(
                    cursors,
                    head_normed(
                        att.q_norm,
                        custom.head_dim,
                        plus(product(att.q_proj, n), att.q_bias),
                    ),
                    custom,
                    info.num_head,
                ),
                keys: rotated(
                    cursors,
                    head_normed(
                        att.k_norm,
                        custom.head_dim,
                        plus(product(att.k_proj, n), att.k_bias),
                    ),
                    custom,
                    custom.num_kv_head,
                ),
                values: plus(product(att.v_proj, n), att.v_bias),
                head_dim: custom.head_dim as u32,
                num_head: info.num_head as u32,
                num_kv_head: custom.num_kv_head as u32,
                num_gate_head: (if custom.has_qk_norm {
                    info.num_head
                } else {
                    custom.num_kv_head
                }) as u32,
            };
            let attention = plus(
                product(att.o_proj, Value::Retained(Box::new(retention))),
                att.o_bias,
            );
            &&& after.held[Buffer::X] == sum(x, attention)
            &&& after.seen[Hook::PreAtt(index)][Buffer::X] == x
            &&& after.seen[Hook::PreAtt(index)][Buffer::AttX] == x
            &&& after.seen[Hook::PostAttLayerNorm(index)][Buffer::AttX] == n
            &&& after.seen[Hook::PreAttLinear(index)][Buffer::AttX] == n
            &&& after.seen[Hook::PreAttLinear(index)][Buffer::AttQ] == m.held[Buffer::AttQ]
            &&& after.seen[Hook::PostAttLinear(index)][Buffer::AttQ] == plus(
                product(att.q_proj, n),
                att.q_bias,
            )
            &&& after.seen[Hook::PostAttLinear(index)][Buffer::AttK] == plus(
                product(att.k_proj, n),
                att.k_bias,
            )
            &&& after.seen[Hook::PostAttLinear(index)][Buffer::AttV] == retention.values
            &&& after.seen[Hook::PostAttLinear(index)][Buffer::AttG] == retention.gates
            &&& after.seen[Hook::PreAttRetention(index)][Buffer::AttQ] == retention.queries
            &&& after.seen[Hook::PreAttRetention(index)][Buffer::AttK] == retention.keys
            &&& after.seen[Hook::PreAttRetention(index)][Buffer::AttO] == m.held[Buffer::AttO]
            &&& after.seen[Hook::PostAttRetention(index)][Buffer::AttO] == Value::Retained(
                Box::new(retention),
            )
            &&& after.seen[Hook::PreAttOut(index)][Buffer::AttO] == Value::Retained(
                Box::new(retention),
            )
            &&& after.seen[Hook::PreAttOut(index)][Buffer::AttX] == n
            &&& after.seen[Hook::PostAttOut(index)][Buffer::AttX] == attention
            &&& after.seen[Hook::PostAttOut(index)][Buffer::X] == x
            &&& after.seen[Hook::PostAtt(index)][Buffer::X] == sum(x, attention)
            &&& after.held[Buffer::Cursors] == cursors
            &&& after.held[Buffer::Input] == m.held[Buffer::Input]
            &&& after.held[Buffer::FfnGate] == m.held[Buffer::FfnGate]
            &&& after.held[Buffer::FfnDown] == m.held[Buffer::FfnDown]
            &&& after.state == m.state.insert(
                retention_rows(index, info),
                Value::Kept(Box::new(retention)),
            )
        }),
{
    let all = att_ops(layer, index, num_token, info, custom);
    let start = all.take(5);
    let p = projection_ops(&layer.att, num_token);
    let h1 = seq![Op::<'_, V, M>::Hook(Hook::PostAttLinear(index))];
    let r = retention_ops(&layer.att, index, info, custom);
    let h2 = seq![Op::<'_, V, M>::Hook(Hook::PreAttOut(index))];
    let o = linear_ops(
        &layer.att.o_proj,
        &layer.att.o_bias,
        Buffer::AttO,
        Buffer::AttX,
        num_token,
    );
    let end = all.skip(all.len() - 3);
    assert(start =~= seq![start[0], start[1], start[2], start[3], start[4]]);
    assert(end =~= seq![end[0], end[1], end[2]]);
    assert(all =~= start + p + h1 + r + h2 + o + end);
    lemma_run_5(start[0], start[1], start[2], start[3], start[4], m);
    let m1 = run(start, m);
    lemma_projections(&layer.att, num_token, m1);
    run_goes_on(start, p, m);
    let m2 = run(p, m1);
    lemma_run_1(h1[0], m2);
    run_goes_on(start + p, h1, m);
    let seen = run(h1, m2);
    lemma_retention(&layer.att, index, info, custom, seen);
    run_goes_on(start + p + h1, r, m);
    let kept = run(r, seen);
    lemma_run_1(h2[0], kept);
    run_goes_on(start + p + h1 + r, h2, m);
    let m3 = run(h2, kept);
    lemma_linear(
        &layer.att.o_proj,
        &layer.att.o_bias,
        Buffer::AttO,
        Buffer::AttX,
        num_token,
        m3,
    );
    run_goes_on(start + p + h1 + r + h2, o, m);
    let m4 = run(o, m3);
    lemma_run_3(end[0], end[1], end[2], m4);
    run_goes_on(start + p + h1 + r + h2 + o, end, m);
}

proof fn lemma_ffn<V, M>(
    layer: &Layer<V, M>,
    index: usize,
    num_token: usize,
    custom: CustomInfo,
    m: Machine<V, M>,
)
    ensures
        ({
            let after = run(ffn_ops(layer, index, num_token, custom), m);
            let h = m.held[Buffer::X];
            let n = normed(layer.post_att_ln, h);
            let network = match layer.ffn {
                Ffn::Gated { gate_proj, up_proj, down_proj } => product(
                    down_proj,
                    times(
                        Value::Applied(Activation::Silu, Box::new(product(gate_proj, n))),
                        product(up_proj, n),
                    ),
                ),
                Ffn::Dense { c_fc, c_fc_bias, c_proj, c_proj_bias } => plus(
                    product(
                        c_proj,
                        applied(custom.hidden_act, plus(product(c_fc, n), c_fc_bias)),
                    ),
                    c_proj_bias,
                ),
            };
            &&& after.held[Buffer::FfnDown] == network
            &&& after.held[Buffer::X] == sum(h, network)
            &&& after.held[Buffer::Cursors] == m.held[Buffer::Cursors]
            &&& after.held[Buffer::Input] == m.held[Buffer::Input]
            &&& after.seen[Hook::PreFfn(index)][Buffer::X] == h
            &&& after.seen[Hook::PreFfn(index)][Buffer::FfnX] == h
            &&& after.seen[Hook::PostFfnLayerNorm(index)][Buffer::FfnX] == n
            &&& after.seen[Hook::PreFfnLinear(index)][Buffer::FfnX] == n
            &&& after.seen[Hook::PreFfnLinear(index)][Buffer::FfnGate] == m.held[Buffer::FfnGate]
            &&& match layer.ffn {
                Ffn::Gated { gate_proj, up_proj, .. } => {
                    &&& after.seen[Hook::PostFfnGate(index)][Buffer::FfnGate] == Value::Applied(
                        Activation::Silu,
                        Box::new(product(gate_proj, n)),
                    )
                    &&& after.seen[Hook::PostFfnGate(index)][Buffer::FfnUp] == product(up_proj, n)
                },
                Ffn::Dense { c_fc, c_fc_bias, .. } => {
                    &&& after.seen[Hook::PostFfnGate(index)][Buffer::FfnGate] == applied(
                        custom.hidden_act,
                        plus(product(c_fc, n), c_fc_bias),
                    )
                },
            }
            &&& after.seen[Hook::PostFfnGate(index)][Buffer::FfnDown] == m.held[Buffer::FfnDown]
            &&& after.seen[Hook::PostFfnLinear(index)][Buffer::FfnDown] == network
            &&& after.seen[Hook::PostFfnLinear(index)][Buffer::X] == h
            &&& after.seen[Hook::PostFfn(index)][Buffer::X] == sum(h, network)
            &&& forall|hook: Hook|
                hook != Hook::PreFfn(index) && hook != Hook::PostFfnLayerNorm(index) && hook
                    != Hook::PreFfnLinear(index) && hook != Hook::PostFfnGate(index) && hook
                    != Hook::PostFfnLinear(index) && hook != Hook::PostFfn(index)
                    ==> #[trigger] after.seen[hook] == m.seen[hook]
            &&& after.state == m.state
        }),
{
    let all = ffn_ops(layer, index, num_token, custom);
    let start = all.take(5);
    let net = ffn_net_ops(&layer.ffn, index, num_token, custom);
    let end = all.skip(all.len() - 3);
    assert(start =~= seq![start[0], start[1], start[2], start[3], start[4]]);
    assert(end =~= seq![end[0], end[1], end[2]]);
    assert(all =~= start + net + end);
    lemma_run_5(start[0], start[1], start[2], start[3], start[4], m);
    let m1 = run(start, m);
    run_goes_on(start, net, m);
    run_goes_on(start + net, end, m);
    let m2 = run(net, m1);
    match &layer.ffn {
        Ffn::Gated { gate_proj, up_proj, down_proj } => {
            assert(net =~= seq![net[0], net[1], net[2], net[3], net[4]]);
            lemma_run_5(net[0], net[1], net[2], net[3], net[4], m1);
        },
        Ffn::Dense { c_fc, c_fc_bias, c_proj, c_proj_bias } => {
            let a = linear_ops(c_fc, c_fc_bias, Buffer::FfnX, Buffer::FfnGate, num_token);
            let b = seq![
                Op::Activate { x: Buffer::FfnGate, act: custom.hidden_act },
                Op::Hook(Hook::PostFfnGate(index)),
            ];
            let c = linear_ops(c_proj, c_proj_bias, Buffer::FfnGate, Buffer::FfnDown, num_token);
            lemma_linear(c_fc, c_fc_bias, Buffer::FfnX, Buffer::FfnGate, num_token, m1);
            let m3 = run(a, m1);
            lemma_run_2(b[0], b[1], m3);
            let m4 = run(b, m3);
            lemma_linear(c_proj, c_proj_bias, Buffer::FfnGate, Buffer::FfnDown, num_token, m4);
            run_goes_on(a, b, m1);
            run_goes_on(a + b, c, m1);
            assert(net == a + b + c);
        },
    }
    lemma_run_3(end[0], end[1], end[2], m2);
}

/// Layers run one after the other, the first on what came before.
pub proof fn layers_run_in_order<V, M>(
    layers: Seq<Layer<V, M>>,
    count: nat,
    num_token: usize,
    rescale: usize,
    sep: usize,
    info: ModelInfo,
    m: Machine<V, M>,
)
    requires
        count < layers.len() <= usize::MAX,
    ensures
        run(layers_ops(layers, 0, num_token, rescale, sep, info), m) == m,
        run(layers_ops(layers, count + 1, num_token, rescale, sep, info), m) == run(
            layer_ops(&layers[count as int], count as usize, num_token, rescale, info),
            run(layers_ops(layers, count, num_token, rescale, sep, info), m),
        ),
{
    let none: Seq<Op<'_, V, M>> = layers_ops(layers, 0, num_token, rescale, sep, info);
    lemma_run_none(none, m);
    let done = layers_ops(layers, count, num_token, rescale, sep, info);
    let layer = layer_ops(&layers[count as int], count as usize, num_token, rescale, info);
    let end: Seq<Op<'_, V, M>> = sep_ops(count as usize, sep);
    run_goes_on(done + layer, end, m);
    run_goes_on(done, layer, m);
    let last = run(done + layer, m);
    if end.len() == 0 {
        lemma_run_none(end, last);
    } else {
        lemma_run_1(end[0], last);
        assert(end =~= seq![end[0]]);
    }
}

/// What an inference computes, without hooks: the input goes through all layers, and the
/// tokens that have an output through the norm and the matrix of the head. There is no
/// output where none of them has one, and nothing happens where there is no token.
pub proof fn inference_computes<V, M, E>(
    model: Model<V, M, E>,
    num_token: usize,
    num_header: usize,
    m: Machine<V, M>,
)
    ensures
        num_token == 0 ==> run(dispatch_ops(model, num_token, num_header), m) == m,
        num_token > 0 ==> {
            let tensor = model.tensor;
            let after = run(dispatch_ops(model, num_token, num_header), m);
            let embedded = Machine {
                seen: m.seen.insert(Hook::PostEmbedLoaded, m.held),
                ..m
            }.put(Buffer::X, m.held[Buffer::Input]);
            let hidden = run(
                layers_ops(
                    tensor.layers@,
                    tensor.layers@.len(),
                    num_token,
                    model.rescale,
                    model.sep,
                    model.info,
                ),
                embedded,
            );
            let gathered = Value::Gathered(Box::new(hidden.held[Buffer::X]));
            let n = normed(tensor.head.ln, gathered);
            &&& after.state == hidden.state
            &&& after.held[Buffer::X] == hidden.held[Buffer::X]
            &&& num_header == 0 ==> {
                &&& after.held[Buffer::HeadO] == hidden.held[Buffer::HeadO]
                &&& after.held[Buffer::HeadX] == gathered
            }
            &&& num_header > 0 ==> {
                &&& after.held[Buffer::HeadO] == product(tensor.head.w, n)
                &&& after.seen[Hook::PreHead][Buffer::HeadX] == gathered
                &&& after.seen[Hook::PostHeadLayerNorm][Buffer::HeadX] == n
                &&& after.seen[Hook::PostHeadLayerNorm][Buffer::HeadO]
                    == hidden.held[Buffer::HeadO]
                &&& after.seen[Hook::PostHead][Buffer::HeadO] == product(tensor.head.w, n)
            }
        },
{
    let ops: Seq<Op<'_, V, M>> = dispatch_ops(model, num_token, num_header);
    if num_token == 0 {
        lemma_run_none(ops, m);
    } else {
        let tensor = model.tensor;
        let start: Seq<Op<'_, V, M>> = seq![
            Op::Hook(Hook::PostEmbedLoaded),
            Op::Blit { from: Buffer::Input, to: Buffer::X },
        ];
        let layers = layers_ops(
            tensor.layers@,
            tensor.layers@.len(),
            num_token,
            model.rescale,
            model.sep,
            model.info,
        );
        let end = head_ops(&tensor.head, num_header);
        lemma_run_2(start[0], start[1], m);
        run_goes_on(start, layers, m);
        run_goes_on(start + layers, end, m);
        let hidden = run(start + layers, m);
        if num_header > 0 {
            let five = seq![end[0], end[1], end[2], end[3], end[4]];
            assert(end =~= five.push(end[5]));
            lemma_run_5(end[0], end[1], end[2], end[3], end[4], hidden);
            lemma_run_push(five, end[5], hidden);
        } else {
            lemma_run_1(end[0], hidden);
            assert(end =~= seq![end[0]]);
        }
    }
}

/// Operations of a layer are submitted together, and their matrix products are made by
/// whole chunks exactly where the number of tokens is one of whole chunks of 32.
pub open spec fn is_plain_op<V, M>(op: Op<'_, V, M>, num_token: usize) -> bool {
    &&& op !is Sep
    &&& op !is Redirect
    &&& op matches Op::Matmul { turbo, .. } ==> turbo == (num_token % 32 == 0)
}

spec fn all_plain<V, M>(ops: Seq<Op<'_, V, M>>, num_token: usize) -> bool {
    forall|i: int| 0 <= i < ops.len() ==> is_plain_op(#[trigger] ops[i], num_token)
}

proof fn lemma_plain_join<'a, V, M>(
    a: Seq<Op<'a, V, M>>,
    b: Seq<Op<'a, V, M>>,
    num_token: usize,
)
    requires
        all_plain(a, num_token),
        all_plain(b, num_token),
    ensures
        all_plain(a + b, num_token),
{
    let c = a + b;
    assert forall|i: int| 0 <= i < c.len() implies is_plain_op(#[trigger] c[i], num_token) by {
        if i < a.len() {
            assert(c[i] == a[i]);
        } else {
            assert(c[i] == b[i - a.len()]);
        }
    }
}

/// A layer has no operation that ends what is submitted together, and makes its matrix
/// products by whole chunks exactly where the tokens fill chunks of 32.
pub proof fn layer_ops_are_plain<V, M>(
    layer: &Layer<V, M>,
    index: usize,
    num_token: usize,
    rescale: usize,
    info: ModelInfo,
    i: int,
)
    requires
        0 <= i < layer_ops(layer, index, num_token, rescale, info).len(),
    ensures
        is_plain_op(layer_ops(layer, index, num_token, rescale, info)[i], num_token),
{
    let custom = info.custom->Brumby_0;
    let att = att_ops(layer, index, num_token, info, custom);
    let ffn = ffn_ops(layer, index, num_token, custom);
    let c: Seq<Op<'_, V, M>> = rescale_ops(index, rescale);
    lemma_plain_att(layer, index, num_token, info, custom);
    lemma_plain_ffn(layer, index, num_token, custom);
    lemma_plain_join(att, ffn, num_token);
    lemma_plain_join(att + ffn, c, num_token);
}

proof fn lemma_plain_projections<V, M>(att: &Att<V, M>, num_token: usize)
    ensures
        all_plain(projection_ops(att, num_token), num_token),
{
    let q = linear_ops(&att.q_proj, &att.q_bias, Buffer::AttX, Buffer::AttQ, num_token);
    let k = linear_ops(&att.k_proj, &att.k_bias, Buffer::AttX, Buffer::AttK, num_token);
    let v = linear_ops(&att.v_proj, &att.v_bias, Buffer::AttX, Buffer::AttV, num_token);
    let g = linear_ops(&att.g_proj, &att.g_bias, Buffer::AttX, Buffer::AttG, num_token);
    lemma_plain_join(q, k, num_token);
    lemma_plain_join(q + k, v, num_token);
    lemma_plain_join(q + k + v, g, num_token);
}

proof fn lemma_plain_retention<V, M>(
    att: &Att<V, M>,
    index: usize,
    num_token: usize,
    info: ModelInfo,
    custom: CustomInfo,
)
    ensures
        all_plain(retention_ops(att, index, info, custom), num_token),
{
    let r = retention_ops(att, index, info, custom);
    let q: Seq<Op<'_, V, M>> = norm_ops(&att.q_norm, Buffer::AttQ, custom);
    let k: Seq<Op<'_, V, M>> = norm_ops(&att.k_norm, Buffer::AttK, custom);
    let rest = r.skip((q.len() + k.len()) as int);
    assert(rest =~= seq![rest[0], rest[1], rest[2], rest[3], rest[4]]);
    assert(all_plain(rest, num_token));
    assert(r =~= q + k + rest);
    lemma_plain_join(q, k, num_token);
    lemma_plain_join(q + k, rest, num_token);
}

proof fn lemma_plain_att<V, M>(
    layer: &Layer<V, M>,
    index: usize,
    num_token: usize,
    info: ModelInfo,
    custom: CustomInfo,
)
    ensures
        all_plain(att_ops(layer, index, num_token, info, custom), num_token),
{
    let att = &layer.att;
    let all = att_ops(layer, index, num_token, info, custom);
    let p = projection_ops(att, num_token);
    let h1 = seq![Op::<'_, V, M>::Hook(Hook::PostAttLinear(index))];
    let r = retention_ops(att, index, info, custom);
    let h2 = seq![Op::<'_, V, M>::Hook(Hook::PreAttOut(index))];
    let o = linear_ops(&att.o_proj, &att.o_bias, Buffer::AttO, Buffer::AttX, num_token);
    lemma_plain_projections(att, num_token);
    lemma_plain_retention(att, index, num_token, info, custom);
    let start = all.take(5);
    let end = all.skip(all.len() - 3);
    assert(start =~= seq![start[0], start[1], start[2], start[3], start[4]]);
    assert(end =~= seq![end[0], end[1], end[2]]);
    assert(all =~= start + p + h1 + r + h2 + o + end);
    assert(all_plain(start, num_token));
    assert(all_plain(end, num_token));
    lemma_plain_join(start, p, num_token);
    lemma_plain_join(start + p, h1, num_token);
    lemma_plain_join(start + p + h1, r, num_token);
    lemma_plain_join(start + p + h1 + r, h2, num_token);
    lemma_plain_join(start + p + h1 + r + h2, o, num_token);
    lemma_plain_join(start + p + h1 + r + h2 + o, end, num_token);
}

proof fn lemma_plain_ffn<V, M>(
    layer: &Layer<V, M>,
    index: usize,
    num_token: usize,
    custom: CustomInfo,
)
    ensures
        all_plain(ffn_ops(layer, index, num_token, custom), num_token),
{
    let all = ffn_ops(layer, index, num_token, custom);
    let start = all.take(5);
    let net = ffn_net_ops(&layer.ffn, index, num_token, custom);
    let end = all.skip(all.len() - 3);
    assert(start =~= seq![start[0], start[1], start[2], start[3], start[4]]);
    assert(end =~= seq![end[0], end[1], end[2]]);
    assert(all =~= start + net + end);
    assert(all_plain(start, num_token));
    assert(all_plain(end, num_token));
    match &layer.ffn {
        Ffn::Gated { gate_proj, up_proj, down_proj } => {
            assert(net =~= seq![net[0], net[1], net[2], net[3], net[4]]);
        },
        Ffn::Dense { c_fc, c_fc_bias, c_proj, c_proj_bias } => {
            let a = linear_ops(c_fc, c_fc_bias, Buffer::FfnX, Buffer::FfnGate, num_token);
            let b = seq![
                Op::Activate { x: Buffer::FfnGate, act: custom.hidden_act },
                Op::Hook(Hook::PostFfnGate(index)),
            ];
            let c = linear_ops(c_proj, c_proj_bias, Buffer::FfnGate, Buffer::FfnDown, num_token);
            lemma_plain_join(a, b, num_token);
            lemma_plain_join(a + b, c, num_token);
            assert(net == a + b + c);
        },
    }
    lemma_plain_join(start, net, num_token);
    lemma_plain_join(start + net, end, num_token);
}

/// The head makes its matrix product by whole chunks exactly where the outputs fill chunks
/// of 32, and gathers before all else.
pub proof fn head_ops_are_plain<V, M>(head: &Head<V, M>, num_header: usize, i: int)
    requires
        0 <= i < head_ops(head, num_header).len(),
    ensures
        head_ops(head, num_header)[i] is Redirect <==> i == 0,
        i > 0 ==> is_plain_op(head_ops(head, num_header)[i], num_header),
{
}

/// After some layers, what is submitted together ends exactly where their number is a
/// multiple of `sep`.
pub proof fn layers_are_separated<V, M>(
    layers: Seq<Layer<V, M>>,
    count: nat,
    num_token: usize,
    rescale: usize,
    sep: usize,
    info: ModelInfo,
)
    requires
        sep > 0,
        0 < count <= layers.len() <= usize::MAX,
    ensures
        ({
            let before = layers_ops(layers, (count - 1) as nat, num_token, rescale, sep, info);
            let layer = layer_ops(
                &layers[count - 1],
                (count - 1) as usize,
                num_token,
                rescale,
                info,
            );
            layers_ops(layers, count, num_token, rescale, sep, info) == before + layer + if count
                % (sep as nat) == 0 {
                seq![Op::Sep]
            } else {
                Seq::empty()
            }
        }),
{
}

} // verus!
