//! Building a power-retention model: which tensors are loaded, in which order, and
//! where each of them goes.

use std::collections::HashMap;
use vstd::prelude::*;

use super::brumby::{
    Att, CustomInfo, DEFAULT_RESCALE, DEFAULT_SEP, Embed, Ffn, Head, Layer, Model, ModelTensor,
    RmsNorm,
};
use super::info::{info_outcome, layer_index_of, tells, InfoOutcome};
use super::loader::{Loader, LoaderError, Lora, Reader};
use super::model::{ModelCustomInfo, ModelInfo, Quant};
use crate::text::{
    begins_with, decimal, decimal_round_trip, first_index, join2, lemma_first_index_is, to_decimal,
};

verus! {

/// Where a vector comes from.
#[derive(Debug, PartialEq, Eq)]
pub enum VectorSource {
    /// It is loaded under a name.
    File(String),
    /// It is made of zeros, in the shape of the vector before it.
    Zeros,
}

/// Where a matrix comes from.
#[derive(Debug, PartialEq, Eq)]
pub enum MatrixSource {
    /// It is loaded under a name and padded.
    Padded(String),
    /// It is loaded under a name and quantized.
    Stored(String, Quant),
}

/// A `VectorSource` as a plain value.
pub enum VectorName {
    File(Seq<char>),
    Zeros,
}

/// A `MatrixSource` as a plain value.
pub enum MatrixName {
    Padded(Seq<char>),
    Stored(Seq<char>, Quant),
}

impl View for VectorSource {
    type V = VectorName;

    open spec fn view(&self) -> VectorName {
        match self {
            VectorSource::File(name) => VectorName::File(name@),
            VectorSource::Zeros => VectorName::Zeros,
        }
    }
}

impl View for MatrixSource {
    type V = MatrixName;

    open spec fn view(&self) -> MatrixName {
        match self {
            MatrixSource::Padded(name) => MatrixName::Padded(name@),
            MatrixSource::Stored(name, quant) => MatrixName::Stored(name@, *quant),
        }
    }
}

/// A tensor of a model, by its kind.
#[derive(Debug, PartialEq, Eq)]
pub enum Slot<V, M, E> {
    Vector(V),
    Matrix(M),
    Embed(E),
}

/// A tensor that is to be loaded. The embedding table is padded and stays in main
/// memory.
pub type Request = Slot<VectorSource, MatrixSource, String>;

/// A `Request` as a plain value.
pub type RequestModel = Slot<VectorName, MatrixName, Seq<char>>;

/// A `Request` as a plain value.
pub open spec fn request_view(request: Request) -> RequestModel {
    match request {
        Slot::Vector(source) => Slot::Vector(source@),
        Slot::Matrix(source) => Slot::Matrix(source@),
        Slot::Embed(name) => Slot::Embed(name@),
    }
}

/// Requests as plain values.
pub open spec fn requests_view(requests: Seq<Request>) -> Seq<RequestModel> {
    requests.map_values(|request: Request| request_view(request))
}

// The tensors of a model in the order in which they are loaded.

/// A vector, where there is one.
pub open spec fn flat_option<V, M, E>(vector: Option<V>) -> Seq<Slot<V, M, E>> {
    match vector {
        Some(vector) => seq![Slot::Vector(vector)],
        None => Seq::empty(),
    }
}

/// The tensors of a norm.
pub open spec fn flat_norm<V, M, E>(norm: RmsNorm<V>) -> Seq<Slot<V, M, E>> {
    seq![Slot::Vector(norm.w), Slot::Vector(norm.b)]
}

/// The tensors of a norm, where there is one.
pub open spec fn flat_norm_option<V, M, E>(norm: Option<RmsNorm<V>>) -> Seq<Slot<V, M, E>> {
    match norm {
        Some(norm) => flat_norm(norm),
        None => Seq::empty(),
    }
}

/// The projections of an attention layer.
pub open spec fn flat_projections<V, M, E>(att: Att<V, M>) -> Seq<Slot<V, M, E>> {
    seq![
        Slot::Matrix(att.q_proj),
        Slot::Matrix(att.k_proj),
        Slot::Matrix(att.v_proj),
        Slot::Matrix(att.o_proj),
        Slot::Matrix(att.g_proj),
    ]
}

/// The tensors of an attention layer.
pub open spec fn flat_att<V, M, E>(att: Att<V, M>) -> Seq<Slot<V, M, E>> {
    flat_projections(att) + flat_norm_option(att.q_norm) + flat_norm_option(att.k_norm)
        + flat_option(att.q_bias) + flat_option(att.k_bias) + flat_option(att.v_bias)
        + flat_option(att.o_bias) + flat_option(att.g_bias)
}

/// The tensors of a feed-forward network.
pub open spec fn flat_ffn<V, M, E>(ffn: Ffn<V, M>) -> Seq<Slot<V, M, E>> {
    match ffn {
        Ffn::Gated { gate_proj, up_proj, down_proj } => seq![
            Slot::Matrix(gate_proj),
            Slot::Matrix(up_proj),
            Slot::Matrix(down_proj),
        ],
        Ffn::Dense { c_fc, c_fc_bias, c_proj, c_proj_bias } => seq![Slot::Matrix(c_fc)]
            + flat_option(c_fc_bias) + seq![Slot::Matrix(c_proj)] + flat_option(c_proj_bias),
    }
}

/// The tensors of a layer.
pub open spec fn flat_layer<V, M, E>(layer: Layer<V, M>) -> Seq<Slot<V, M, E>> {
    flat_norm(layer.input_ln) + flat_att(layer.att) + flat_norm(layer.post_att_ln) + flat_ffn(
        layer.ffn,
    )
}

/// The tensors that no layer has.
pub open spec fn flat_ends<V, M, E>(embed: Embed<E>, head: Head<V, M>) -> Seq<Slot<V, M, E>> {
    seq![Slot::Embed(embed.w)] + flat_norm(head.ln) + seq![Slot::Matrix(head.w)]
}

// The names of the tensors of a model.

/// Models without QK norms have biases.
pub open spec fn use_bias(custom: CustomInfo) -> bool {
    !custom.has_qk_norm
}

/// The names of a norm.
pub open spec fn norm_names(base: Seq<char>, bias: bool) -> RmsNorm<VectorName> {
    RmsNorm {
        w: VectorName::File(base + ".weight"@),
        b: if bias {
            VectorName::File(base + ".bias"@)
        } else {
            VectorName::Zeros
        },
    }
}

/// The name of a bias, where there is one.
pub open spec fn bias_name(base: Seq<char>, bias: bool) -> Option<VectorName> {
    if bias {
        Some(VectorName::File(base + ".bias"@))
    } else {
        None
    }
}

/// The name of a matrix of a layer.
pub open spec fn matrix_name(base: Seq<char>, quant: Quant) -> MatrixName {
    MatrixName::Stored(base + ".weight"@, quant)
}

/// The names of an attention layer.
pub open spec fn att_names(l: Seq<char>, custom: CustomInfo, quant: Quant) -> Att<
    VectorName,
    MatrixName,
> {
    let bias = use_bias(custom);
    Att {
        q_proj: matrix_name(l + ".self_attn.q_proj"@, quant),
        k_proj: matrix_name(l + ".self_attn.k_proj"@, quant),
        v_proj: matrix_name(l + ".self_attn.v_proj"@, quant),
        o_proj: matrix_name(l + ".self_attn.o_proj"@, quant),
        g_proj: matrix_name(l + ".self_attn.g_proj"@, quant),
        q_norm: if custom.has_qk_norm {
            Some(norm_names(l + ".self_attn.q_norm"@, false))
        } else {
            None
        },
        k_norm: if custom.has_qk_norm {
            Some(norm_names(l + ".self_attn.k_norm"@, false))
        } else {
            None
        },
        q_bias: bias_name(l + ".self_attn.q_proj"@, bias),
        k_bias: bias_name(l + ".self_attn.k_proj"@, bias),
        v_bias: bias_name(l + ".self_attn.v_proj"@, bias),
        o_bias: bias_name(l + ".self_attn.o_proj"@, bias),
        g_bias: bias_name(l + ".self_attn.g_proj"@, bias),
    }
}

/// The names of a feed-forward network.
pub open spec fn ffn_names(l: Seq<char>, custom: CustomInfo, quant: Quant) -> Ffn<
    VectorName,
    MatrixName,
> {
    if custom.gated_ffn {
        Ffn::Gated {
            gate_proj: matrix_name(l + ".mlp.gate_proj"@, quant),
            up_proj: matrix_name(l + ".mlp.up_proj"@, quant),
            down_proj: matrix_name(l + ".mlp.down_proj"@, quant),
        }
    } else {
        Ffn::Dense {
            c_fc: matrix_name(l + ".mlp.c_fc"@, quant),
            c_fc_bias: bias_name(l + ".mlp.c_fc"@, use_bias(custom)),
            c_proj: matrix_name(l + ".mlp.c_proj"@, quant),
            c_proj_bias: bias_name(l + ".mlp.c_proj"@, use_bias(custom)),
        }
    }
}

/// What the names of a layer begin with.
pub open spec fn layer_base(layer: usize) -> Seq<char> {
    "model.layers."@ + decimal(layer as nat)
}

/// The names of a layer.
pub open spec fn layer_names(layer: usize, custom: CustomInfo, quant: Quant) -> Layer<
    VectorName,
    MatrixName,
> {
    let l = layer_base(layer);
    Layer {
        input_ln: norm_names(l + ".input_layernorm"@, use_bias(custom)),
        post_att_ln: norm_names(l + ".post_attention_layernorm"@, use_bias(custom)),
        att: att_names(l, custom, quant),
        ffn: ffn_names(l, custom, quant),
    }
}

/// The name of the embedding table.
pub open spec fn embed_name() -> Embed<Seq<char>> {
    Embed { w: "model.embed_tokens.weight"@ }
}

/// The names of the head.
pub open spec fn head_names(custom: CustomInfo) -> Head<VectorName, MatrixName> {
    Head {
        ln: norm_names("model.norm"@, use_bias(custom)),
        w: MatrixName::Padded("lm_head.weight"@),
    }
}

/// How a layer is quantized: not at all, unless it is set.
pub open spec fn layer_quant(quant: Map<usize, Quant>, layer: usize) -> Quant {
    if quant.contains_key(layer) {
        quant[layer]
    } else {
        Quant::Fp16
    }
}

/// The requests for a layer.
pub open spec fn layer_list(layer: usize, custom: CustomInfo, quant: Quant) -> Seq<RequestModel> {
    flat_layer(layer_names(layer, custom, quant))
}

/// The requests for what no layer has.
pub open spec fn end_list(custom: CustomInfo) -> Seq<RequestModel> {
    flat_ends(embed_name(), head_names(custom))
}

/// The requests for a model: first what no layer has, then one group for each layer.
pub open spec fn is_request_list(
    groups: Seq<Vec<Request>>,
    info: ModelInfo,
    custom: CustomInfo,
    quant: Map<usize, Quant>,
) -> bool {
    &&& groups.len() == info.num_layer + 1
    &&& requests_view(groups[0]@) == end_list(custom)
    &&& forall|i: int|
        1 <= i <= info.num_layer ==> requests_view((#[trigger] groups[i])@) == layer_list(
            (i - 1) as usize,
            custom,
            layer_quant(quant, (i - 1) as usize),
        )
}

fn request_matrix(out: &mut Vec<Request>, base: &str, quant: Quant)
    ensures
        requests_view(final(out)@) == requests_view(old(out)@).push(
            Slot::Matrix(matrix_name(base@, quant)),
        ),
{
    let ghost before = out@;
    out.push(Slot::Matrix(MatrixSource::Stored(join2(base, ".weight"), quant)));
    assert(requests_view(out@) =~= requests_view(before).push(
        Slot::Matrix(matrix_name(base@, quant)),
    ));
}

fn request_norm(out: &mut Vec<Request>, base: &str, bias: bool)
    ensures
        requests_view(final(out)@) == requests_view(old(out)@) + flat_norm(
            norm_names(base@, bias),
        ),
{
    let ghost before = out@;
    out.push(Slot::Vector(VectorSource::File(join2(base, ".weight"))));
    if bias {
        out.push(Slot::Vector(VectorSource::File(join2(base, ".bias"))));
    } else {
        out.push(Slot::Vector(VectorSource::Zeros));
    }
    assert(requests_view(out@) =~= requests_view(before) + flat_norm(norm_names(base@, bias)));
}

fn request_bias(out: &mut Vec<Request>, base: &str, bias: bool)
    ensures
        requests_view(final(out)@) == requests_view(old(out)@) + flat_option(
            bias_name(base@, bias),
        ),
{
    let ghost before = out@;
    if bias {
        out.push(Slot::Vector(VectorSource::File(join2(base, ".bias"))));
    }
    assert(requests_view(out@) =~= requests_view(before) + flat_option(bias_name(base@, bias)));
}

fn request_att(out: &mut Vec<Request>, l: &str, custom: &CustomInfo, quant: Quant)
    ensures
        requests_view(final(out)@) == requests_view(old(out)@) + flat_att(
            att_names(l@, *custom, quant),
        ),
{
    let ghost before = requests_view(out@);
    let ghost names = att_names(l@, *custom, quant);
    let bias = !custom.has_qk_norm;
    let q = join2(l, ".self_attn.q_proj");
    let k = join2(l, ".self_attn.k_proj");
    let v = join2(l, ".self_attn.v_proj");
    let o = join2(l, ".self_attn.o_proj");
    let g = join2(l, ".self_attn.g_proj");
    request_matrix(out, q.as_str(), quant);
    request_matrix(out, k.as_str(), quant);
    request_matrix(out, v.as_str(), quant);
    request_matrix(out, o.as_str(), quant);
    request_matrix(out, g.as_str(), quant);
    assert(requests_view(out@) =~= before + flat_projections(names));
    let ghost projected = requests_view(out@);
    if custom.has_qk_norm {
        request_norm(out, join2(l, ".self_attn.q_norm").as_str(), false);
        request_norm(out, join2(l, ".self_attn.k_norm").as_str(), false);
    }
    assert(requests_view(out@) =~= projected + flat_norm_option(names.q_norm) + flat_norm_option(
        names.k_norm,
    ));
    request_bias(out, q.as_str(), bias);
    request_bias(out, k.as_str(), bias);
    request_bias(out, v.as_str(), bias);
    request_bias(out, o.as_str(), bias);
    request_bias(out, g.as_str(), bias);
    assert(requests_view(out@) =~= before + flat_att(names));
}

fn request_ffn(out: &mut Vec<Request>, l: &str, custom: &CustomInfo, quant: Quant)
    ensures
        requests_view(final(out)@) == requests_view(old(out)@) + flat_ffn(
            ffn_names(l@, *custom, quant),
        ),
{
    let ghost before = requests_view(out@);
    if custom.gated_ffn {
        request_matrix(out, join2(l, ".mlp.gate_proj").as_str(), quant);
        request_matrix(out, join2(l, ".mlp.up_proj").as_str(), quant);
        request_matrix(out, join2(l, ".mlp.down_proj").as_str(), quant);
    } else {
        let bias = !custom.has_qk_norm;
        let c_fc = join2(l, ".mlp.c_fc");
        let c_proj = join2(l, ".mlp.c_proj");
        request_matrix(out, c_fc.as_str(), quant);
        request_bias(out, c_fc.as_str(), bias);
        request_matrix(out, c_proj.as_str(), quant);
        request_bias(out, c_proj.as_str(), bias);
    }
    assert(requests_view(out@) =~= before + flat_ffn(ffn_names(l@, *custom, quant)));
}

/// The tensors that are loaded for a layer, in order.
pub fn layer_requests(layer: usize, custom: &CustomInfo, quant: Quant) -> (r: Vec<Request>)
    ensures
        requests_view(r@) == layer_list(layer, *custom, quant),
{
    let bias = !custom.has_qk_norm;
    let l = join2("model.layers.", to_decimal(layer).as_str());
    let mut out: Vec<Request> = Vec::new();
    request_norm(&mut out, join2(l.as_str(), ".input_layernorm").as_str(), bias);
    request_att(&mut out, l.as_str(), custom, quant);
    request_norm(&mut out, join2(l.as_str(), ".post_attention_layernorm").as_str(), bias);
    request_ffn(&mut out, l.as_str(), custom, quant);
    assert(requests_view(out@) =~= layer_list(layer, *custom, quant));
    out
}

/// The tensors that are loaded for what no layer has, in order.
pub fn end_requests(custom: &CustomInfo) -> (r: Vec<Request>)
    ensures
        requests_view(r@) == end_list(*custom),
{
    let mut out: Vec<Request> = Vec::new();
    out.push(Slot::Embed("model.embed_tokens.weight".to_owned()));
    assert(requests_view(out@) =~= seq![Slot::Embed(embed_name().w)]);
    request_norm(&mut out, "model.norm", !custom.has_qk_norm);
    let ghost before = out@;
    out.push(Slot::Matrix(MatrixSource::Padded("lm_head.weight".to_owned())));
    assert(requests_view(out@) =~= requests_view(before).push(Slot::Matrix(head_names(*custom).w)));
    assert(requests_view(out@) =~= end_list(*custom));
    out
}

/// The requests for a model: first what no layer has, then one group for each layer.
pub fn model_requests(
    info: &ModelInfo,
    custom: &CustomInfo,
    quant: &HashMap<usize, Quant>,
) -> (r: Vec<Vec<Request>>)
    ensures
        is_request_list(r@, *info, *custom, quant@),
{
    broadcast use vstd::std_specs::hash::group_hash_axioms;

    let mut groups: Vec<Vec<Request>> = Vec::new();
    groups.push(end_requests(custom));
    let mut layer: usize = 0;
    while layer < info.num_layer
        invariant
            layer <= info.num_layer,
            groups@.len() == layer + 1,
            requests_view(groups@[0]@) == end_list(*custom),
            forall|i: int|
                1 <= i <= layer ==> requests_view((#[trigger] groups@[i])@) == layer_list(
                    (i - 1) as usize,
                    *custom,
                    layer_quant(quant@, (i - 1) as usize),
                ),
        decreases info.num_layer - layer,
    {
        let quant = match quant.get(&layer) {
            Some(quant) => *quant,
            None => Quant::Fp16,
        };
        groups.push(layer_requests(layer, custom, quant));
        layer += 1;
    }
    groups
}

// Putting a model together from what was loaded.

/// The kind of a tensor.
pub enum Kind {
    Vector,
    Matrix,
    Embed,
}

/// The kind of a tensor.
pub open spec fn kind_of<V, M, E>(slot: Slot<V, M, E>) -> Kind {
    match slot {
        Slot::Vector(_) => Kind::Vector,
        Slot::Matrix(_) => Kind::Matrix,
        Slot::Embed(_) => Kind::Embed,
    }
}

/// The kinds of tensors.
pub open spec fn kinds_of<V, M, E>(slots: Seq<Slot<V, M, E>>) -> Seq<Kind> {
    slots.map_values(|slot: Slot<V, M, E>| kind_of(slot))
}

/// The first tensors are of the given kinds.
spec fn starts_with<V, M, E>(slots: Seq<Slot<V, M, E>>, kinds: Seq<Kind>) -> bool {
    &&& slots.len() >= kinds.len()
    &&& forall|i: int| 0 <= i < kinds.len() ==> kind_of(#[trigger] slots[i]) == kinds[i]
}

/// A kind, repeated.
spec fn repeat(n: nat, kind: Kind) -> Seq<Kind> {
    Seq::new(n, |i: int| kind)
}

spec fn vectors<V, M, E>(v: Seq<V>) -> Seq<Slot<V, M, E>> {
    v.map_values(|x: V| Slot::Vector(x))
}

spec fn matrices<V, M, E>(m: Seq<M>) -> Seq<Slot<V, M, E>> {
    m.map_values(|x: M| Slot::Matrix(x))
}

proof fn lemma_starts<V, M, E>(
    slots: Seq<Slot<V, M, E>>,
    first: Seq<Slot<V, M, E>>,
    rest: Seq<Slot<V, M, E>>,
    a: Seq<Kind>,
    b: Seq<Kind>,
)
    requires
        slots == first + rest,
        first.len() == a.len(),
        starts_with(slots, a),
    ensures
        starts_with(slots, a + b) <==> starts_with(rest, b),
{
    assert forall|i: int| 0 <= i < rest.len() implies rest[i] == #[trigger] slots[i
        + a.len()] by {}
    if starts_with(slots, a + b) {
        assert forall|i: int| 0 <= i < b.len() implies kind_of(#[trigger] rest[i]) == b[i] by {
            assert(kind_of(slots[i + a.len()]) == (a + b)[i + a.len()]);
        }
    }
    if starts_with(rest, b) {
        assert forall|i: int| 0 <= i < (a + b).len() implies kind_of(#[trigger] slots[i]) == (a
            + b)[i] by {
            if i >= a.len() {
                assert(kind_of(rest[i - a.len()]) == b[i - a.len()]);
            }
        }
    }
}

proof fn lemma_starts_not<V, M, E>(slots: Seq<Slot<V, M, E>>, a: Seq<Kind>, b: Seq<Kind>)
    ensures
        starts_with(slots, a + b) ==> starts_with(slots, a),
{
    if starts_with(slots, a + b) {
        assert forall|i: int| 0 <= i < a.len() implies kind_of(#[trigger] slots[i]) == a[i] by {
            assert((a + b)[i] == a[i]);
        }
    }
}

fn take_vectors<V, M, E>(slots: &mut Vec<Slot<V, M, E>>, n: usize) -> (r: Option<Vec<V>>)
    ensures
        r is Some <==> starts_with(old(slots)@, repeat(n as nat, Kind::Vector)),
        r matches Some(v) ==> v@.len() == n && old(slots)@ == vectors(v@) + final(slots)@,
{
    let ghost all = slots@;
    let mut out: Vec<V> = Vec::new();
    let mut i: usize = 0;
    assert(all =~= vectors(out@) + slots@);
    while i < n
        invariant
            i <= n,
            i == out@.len(),
            all == old(slots)@,
            all == vectors(out@) + slots@,
        decreases n - i,
    {
        if slots.len() == 0 {
            assert(all.len() == i);
            return None;
        }
        assert(all[i as int] == slots@[0]);
        match slots.remove(0) {
            Slot::Vector(v) => {
                out.push(v);
                assert(vectors::<V, M, E>(out@) =~= vectors::<V, M, E>(out@.drop_last()).push(
                    Slot::Vector(v),
                ));
                assert(all =~= vectors(out@) + slots@);
            },
            _ => {
                assert(repeat(n as nat, Kind::Vector)[i as int] == Kind::Vector);
                assert(kind_of(all[i as int]) != Kind::Vector);
                return None;
            },
        }
        i += 1;
    }
    assert(starts_with(all, repeat(n as nat, Kind::Vector))) by {
        assert forall|j: int| 0 <= j < n implies kind_of(#[trigger] all[j]) == repeat(
            n as nat,
            Kind::Vector,
        )[j] by {
            assert(all[j] == vectors::<V, M, E>(out@)[j]);
        }
    }
    Some(out)
}

fn take_matrices<V, M, E>(slots: &mut Vec<Slot<V, M, E>>, n: usize) -> (r: Option<Vec<M>>)
    ensures
        r is Some <==> starts_with(old(slots)@, repeat(n as nat, Kind::Matrix)),
        r matches Some(m) ==> m@.len() == n && old(slots)@ == matrices(m@) + final(slots)@,
{
    let ghost all = slots@;
    let mut out: Vec<M> = Vec::new();
    let mut i: usize = 0;
    assert(all =~= matrices(out@) + slots@);
    while i < n
        invariant
            i <= n,
            i == out@.len(),
            all == old(slots)@,
            all == matrices(out@) + slots@,
        decreases n - i,
    {
        if slots.len() == 0 {
            assert(all.len() == i);
            return None;
        }
        assert(all[i as int] == slots@[0]);
        match slots.remove(0) {
            Slot::Matrix(m) => {
                out.push(m);
                assert(matrices::<V, M, E>(out@) =~= matrices::<V, M, E>(out@.drop_last()).push(
                    Slot::Matrix(m),
                ));
                assert(all =~= matrices(out@) + slots@);
            },
            _ => {
                assert(repeat(n as nat, Kind::Matrix)[i as int] == Kind::Matrix);
                assert(kind_of(all[i as int]) != Kind::Matrix);
                return None;
            },
        }
        i += 1;
    }
    assert(starts_with(all, repeat(n as nat, Kind::Matrix))) by {
        assert forall|j: int| 0 <= j < n implies kind_of(#[trigger] all[j]) == repeat(
            n as nat,
            Kind::Matrix,
        )[j] by {
            assert(all[j] == matrices::<V, M, E>(out@)[j]);
        }
    }
    Some(out)
}

/// An attention layer has the norms and biases of its model.
pub open spec fn att_fits<V, M>(att: Att<V, M>, custom: CustomInfo) -> bool {
    &&& att.q_norm is Some <==> custom.has_qk_norm
    &&& att.k_norm is Some <==> custom.has_qk_norm
    &&& att.q_bias is Some <==> use_bias(custom)
    &&& att.k_bias is Some <==> use_bias(custom)
    &&& att.v_bias is Some <==> use_bias(custom)
    &&& att.o_bias is Some <==> use_bias(custom)
    &&& att.g_bias is Some <==> use_bias(custom)
}

/// A feed-forward network is gated, and has biases, as its model.
pub open spec fn ffn_fits<V, M>(ffn: Ffn<V, M>, custom: CustomInfo) -> bool {
    match ffn {
        Ffn::Gated { .. } => custom.gated_ffn,
        Ffn::Dense { c_fc_bias, c_proj_bias, .. } => {
            &&& !custom.gated_ffn
            &&& c_fc_bias is Some <==> use_bias(custom)
            &&& c_proj_bias is Some <==> use_bias(custom)
        },
    }
}

/// A layer has the parts that the layers of its model have.
pub open spec fn layer_fits<V, M>(layer: Layer<V, M>, custom: CustomInfo) -> bool {
    att_fits(layer.att, custom) && ffn_fits(layer.ffn, custom)
}

spec fn att_kinds(custom: CustomInfo) -> Seq<Kind> {
    repeat(5, Kind::Matrix) + repeat(
        if custom.has_qk_norm {
            4
        } else {
            5
        },
        Kind::Vector,
    )
}

fn take_norm<V, M, E>(slots: &mut Vec<Slot<V, M, E>>) -> (r: Option<RmsNorm<V>>)
    ensures
        r is Some <==> starts_with(old(slots)@, repeat(2, Kind::Vector)),
        r matches Some(norm) ==> old(slots)@ == flat_norm(norm) + final(slots)@,
{
    match take_vectors(slots, 2) {
        Some(taken) => {
            let mut v = taken;
            match (v.pop(), v.pop()) {
                (Some(b), Some(w)) => {
                    let norm = RmsNorm { w, b };
                    assert(vectors::<V, M, E>(taken@) =~= flat_norm(norm));
                    Some(norm)
                },
                _ => None,
            }
        },
        None => None,
    }
}

fn take_att<V, M, E>(slots: &mut Vec<Slot<V, M, E>>, custom: &CustomInfo) -> (r: Option<Att<V, M>>)
    ensures
        r is Some <==> starts_with(old(slots)@, att_kinds(*custom)),
        r matches Some(att) ==> old(slots)@ == flat_att(att) + final(slots)@ && att_fits(
            att,
            *custom,
        ),
{
    let ghost all = slots@;
    let n: usize = if custom.has_qk_norm {
        4
    } else {
        5
    };
    proof {
        lemma_starts_not(all, repeat(5, Kind::Matrix), repeat(n as nat, Kind::Vector));
    }
    match take_matrices(slots, 5) {
        Some(taken) => {
            let ghost m0 = taken@;
            proof {
                lemma_starts(
                    all,
                    matrices(taken@),
                    slots@,
                    repeat(5, Kind::Matrix),
                    repeat(n as nat, Kind::Vector),
                );
            }
            let mut m = taken;
            match take_vectors(slots, n) {
                Some(taken) => {
                    let ghost v0 = taken@;
                    let mut v = taken;
                    assert(all =~= matrices(m0) + vectors(v0) + slots@);
                    match (m.pop(), m.pop(), m.pop(), m.pop(), m.pop()) {
                        (Some(g_proj), Some(o_proj), Some(v_proj), Some(k_proj), Some(q_proj)) => {
                            if custom.has_qk_norm {
                                match (v.pop(), v.pop(), v.pop(), v.pop()) {
                                    (Some(kb), Some(kw), Some(qb), Some(qw)) => {
                                        let att = Att {
                                            q_proj,
                                            k_proj,
                                            v_proj,
                                            o_proj,
                                            g_proj,
                                            q_norm: Some(RmsNorm { w: qw, b: qb }),
                                            k_norm: Some(RmsNorm { w: kw, b: kb }),
                                            q_bias: None,
                                            k_bias: None,
                                            v_bias: None,
                                            o_bias: None,
                                            g_bias: None,
                                        };
                                        assert(matrices::<V, M, E>(m0) =~= flat_projections(att));
                                        assert(matrices::<V, M, E>(m0) + vectors::<V, M, E>(v0)
                                            =~= flat_att(att));
                                        Some(att)
                                    },
                                    _ => None,
                                }
                            } else {
                                match (v.pop(), v.pop(), v.pop(), v.pop(), v.pop()) {
                                    (Some(g), Some(o), Some(vv), Some(k), Some(q)) => {
                                        let att = Att {
                                            q_proj,
                                            k_proj,
                                            v_proj,
                                            o_proj,
                                            g_proj,
                                            q_norm: None,
                                            k_norm: None,
                                            q_bias: Some(q),
                                            k_bias: Some(k),
                                            v_bias: Some(vv),
                                            o_bias: Some(o),
                                            g_bias: Some(g),
                                        };
                                        assert(matrices::<V, M, E>(m0) =~= flat_projections(att));
                                        assert(matrices::<V, M, E>(m0) + vectors::<V, M, E>(v0)
                                            =~= flat_att(att));
                                        Some(att)
                                    },
                                    _ => None,
                                }
                            }
                        },
                        _ => None,
                    }
                },
                None => None,
            }
        },
        None => None,
    }
}

spec fn ffn_kinds(custom: CustomInfo) -> Seq<Kind> {
    if custom.gated_ffn {
        repeat(3, Kind::Matrix)
    } else if use_bias(custom) {
        seq![Kind::Matrix, Kind::Vector, Kind::Matrix, Kind::Vector]
    } else {
        repeat(2, Kind::Matrix)
    }
}

fn take_biased<V, M, E>(slots: &mut Vec<Slot<V, M, E>>) -> (r: Option<(M, V)>)
    ensures
        r is Some <==> starts_with(old(slots)@, seq![Kind::Matrix, Kind::Vector]),
        r matches Some((matrix, bias)) ==> old(slots)@ == seq![
            Slot::Matrix(matrix),
            Slot::Vector(bias),
        ] + final(slots)@,
{
    let ghost all = slots@;
    let ghost a = repeat(1, Kind::Matrix);
    let ghost b = repeat(1, Kind::Vector);
    proof {
        assert(a + b =~= seq![Kind::Matrix, Kind::Vector]);
        lemma_starts_not(all, a, b);
    }
    match take_matrices(slots, 1) {
        Some(taken) => {
            let ghost m0 = taken@;
            proof {
                lemma_starts(all, matrices(m0), slots@, a, b);
            }
            let mut m = taken;
            match take_vectors(slots, 1) {
                Some(taken) => {
                    let ghost v0 = taken@;
                    let mut v = taken;
                    match (m.pop(), v.pop()) {
                        (Some(matrix), Some(bias)) => {
                            assert(all =~= seq![Slot::Matrix(matrix), Slot::Vector(bias)] + slots@);
                            Some((matrix, bias))
                        },
                        _ => None,
                    }
                },
                None => None,
            }
        },
        None => None,
    }
}

fn take_ffn<V, M, E>(slots: &mut Vec<Slot<V, M, E>>, custom: &CustomInfo) -> (r: Option<Ffn<V, M>>)
    ensures
        r is Some <==> starts_with(old(slots)@, ffn_kinds(*custom)),
        r matches Some(ffn) ==> old(slots)@ == flat_ffn(ffn) + final(slots)@ && ffn_fits(
            ffn,
            *custom,
        ),
{
    let ghost all = slots@;
    if custom.gated_ffn {
        match take_matrices(slots, 3) {
            Some(taken) => {
                let mut m = taken;
                match (m.pop(), m.pop(), m.pop()) {
                    (Some(down_proj), Some(up_proj), Some(gate_proj)) => {
                        let ffn = Ffn::Gated { gate_proj, up_proj, down_proj };
                        assert(matrices::<V, M, E>(taken@) =~= flat_ffn::<V, M, E>(ffn));
                        Some(ffn)
                    },
                    _ => None,
                }
            },
            None => None,
        }
    } else if custom.has_qk_norm {
        match take_matrices(slots, 2) {
            Some(taken) => {
                let mut m = taken;
                match (m.pop(), m.pop()) {
                    (Some(c_proj), Some(c_fc)) => {
                        let ffn = Ffn::Dense { c_fc, c_fc_bias: None, c_proj, c_proj_bias: None };
                        assert(matrices::<V, M, E>(taken@) =~= flat_ffn::<V, M, E>(ffn));
                        Some(ffn)
                    },
                    _ => None,
                }
            },
            None => None,
        }
    } else {
        let ghost half = seq![Kind::Matrix, Kind::Vector];
        proof {
            assert(half + half =~= ffn_kinds(*custom));
            lemma_starts_not(all, half, half);
        }
        match take_biased(slots) {
            Some((c_fc, c_fc_bias)) => {
                proof {
                    lemma_starts(
                        all,
                        seq![Slot::Matrix(c_fc), Slot::Vector(c_fc_bias)],
                        slots@,
                        half,
                        half,
                    );
                }
                match take_biased(slots) {
                    Some((c_proj, c_proj_bias)) => {
                        let ffn = Ffn::Dense {
                            c_fc,
                            c_fc_bias: Some(c_fc_bias),
                            c_proj,
                            c_proj_bias: Some(c_proj_bias),
                        };
                        assert(all =~= flat_ffn(ffn) + slots@);
                        Some(ffn)
                    },
                    None => None,
                }
            },
            None => None,
        }
    }
}

/// The kinds of the tensors of a layer.
spec fn layer_kinds(custom: CustomInfo) -> Seq<Kind> {
    repeat(2, Kind::Vector) + (att_kinds(custom) + (repeat(2, Kind::Vector) + ffn_kinds(custom)))
}

proof fn lemma_layer_kinds(layer: usize, custom: CustomInfo, quant: Quant)
    ensures
        kinds_of(layer_list(layer, custom, quant)) == layer_kinds(custom),
{
    let names = layer_names(layer, custom, quant);
    let input: Seq<RequestModel> = flat_norm(names.input_ln);
    let att: Seq<RequestModel> = flat_att(names.att);
    let post: Seq<RequestModel> = flat_norm(names.post_att_ln);
    let ffn: Seq<RequestModel> = flat_ffn(names.ffn);
    assert(kinds_of(input) =~= repeat(2, Kind::Vector));
    assert(kinds_of(post) =~= repeat(2, Kind::Vector));
    assert(kinds_of(att) =~= att_kinds(custom));
    assert(kinds_of(ffn) =~= ffn_kinds(custom));
    assert(kinds_of(input + att + post + ffn) =~= layer_kinds(custom));
}

/// The tensors of all layers of a model are of the same kinds.
pub proof fn layer_kinds_agree(a: usize, b: usize, custom: CustomInfo, qa: Quant, qb: Quant)
    ensures
        kinds_of(layer_list(a, custom, qa)) == kinds_of(layer_list(b, custom, qb)),
{
    lemma_layer_kinds(a, custom, qa);
    lemma_layer_kinds(b, custom, qb);
}

/// The matrices of a layer are all quantized as the layer is.
pub proof fn layer_matrices_are_stored(layer: usize, custom: CustomInfo, quant: Quant, i: int)
    requires
        0 <= i < layer_list(layer, custom, quant).len(),
        layer_list(layer, custom, quant)[i] is Matrix,
    ensures
        layer_list(layer, custom, quant)[i] matches Slot::Matrix(MatrixName::Stored(_, q)) && q
            == quant,
{
    let names = layer_names(layer, custom, quant);
    let input: Seq<RequestModel> = flat_norm(names.input_ln);
    let att: Seq<RequestModel> = flat_att(names.att);
    let post: Seq<RequestModel> = flat_norm(names.post_att_ln);
    let ffn: Seq<RequestModel> = flat_ffn(names.ffn);
    let projections: Seq<RequestModel> = flat_projections(names.att);
    let list = input + att + post + ffn;
    assert(list == layer_list(layer, custom, quant));
    if i < input.len() {
        assert(list[i] == input[i]);
    } else if i < input.len() + att.len() {
        assert(list[i] == att[i - input.len()]);
        if i - input.len() < projections.len() {
            assert(att[i - input.len()] == projections[i - input.len()]);
        } else {
            assert(kinds_of(att) =~= att_kinds(custom));
            assert(kinds_of(att)[i - input.len()] == kind_of(att[i - input.len()]));
        }
    } else if i < input.len() + att.len() + post.len() {
        assert(list[i] == post[i - input.len() - att.len()]);
    } else {
        assert(list[i] == ffn[i - input.len() - att.len() - post.len()]);
    }
}

proof fn lemma_whole<V, M, E>(slots: Seq<Slot<V, M, E>>, kinds: Seq<Kind>)
    ensures
        kinds_of(slots) == kinds <==> starts_with(slots, kinds) && slots.len() == kinds.len(),
{
    if kinds_of(slots) == kinds {
        assert forall|i: int| 0 <= i < kinds.len() implies kind_of(#[trigger] slots[i])
            == kinds[i] by {
            assert(kinds_of(slots)[i] == kind_of(slots[i]));
        }
    }
    if starts_with(slots, kinds) && slots.len() == kinds.len() {
        assert(kinds_of(slots) =~= kinds);
    }
}

/// Puts a layer together from its tensors, in the order in which they were requested.
/// There is none where their kinds are not those of the requests.
pub fn assemble_layer<V, M, E>(slots: Vec<Slot<V, M, E>>, custom: &CustomInfo) -> (r: Option<
    Layer<V, M>,
>)
    ensures
        r is Some <==> kinds_of(slots@) == kinds_of(layer_list(0, *custom, Quant::Fp16)),
        r matches Some(layer) ==> slots@ == flat_layer::<V, M, E>(layer) && layer_fits(
            layer,
            *custom,
        ),
{
    let ghost all = slots@;
    let ghost norm = repeat(2, Kind::Vector);
    let ghost att_k = att_kinds(*custom);
    let ghost ffn_k = ffn_kinds(*custom);
    proof {
        lemma_layer_kinds(0, *custom, Quant::Fp16);
        lemma_whole(all, layer_kinds(*custom));
        lemma_starts_not(all, norm, att_k + (norm + ffn_k));
    }
    let mut slots = slots;
    let input_ln = match take_norm(&mut slots) {
        Some(norm) => norm,
        None => return None,
    };
    let ghost s1 = slots@;
    proof {
        lemma_starts(all, flat_norm(input_ln), s1, norm, att_k + (norm + ffn_k));
        lemma_starts_not(s1, att_k, norm + ffn_k);
    }
    let att = match take_att(&mut slots, custom) {
        Some(att) => att,
        None => return None,
    };
    let ghost s2 = slots@;
    proof {
        lemma_starts(s1, flat_att(att), s2, att_k, norm + ffn_k);
        lemma_starts_not(s2, norm, ffn_k);
    }
    let post_att_ln = match take_norm(&mut slots) {
        Some(norm) => norm,
        None => return None,
    };
    let ghost s3 = slots@;
    proof {
        lemma_starts(s2, flat_norm(post_att_ln), s3, norm, ffn_k);
    }
    let ffn = match take_ffn(&mut slots, custom) {
        Some(ffn) => ffn,
        None => return None,
    };
    let layer = Layer { input_ln, post_att_ln, att, ffn };
    assert(all =~= flat_layer(layer) + slots@);
    if slots.len() > 0 {
        return None;
    }
    assert(all =~= flat_layer(layer));
    Some(layer)
}

/// Puts the embedding and the head together from their tensors, in the order in which
/// they were requested. There is nothing where their kinds are not those of the
/// requests.
pub fn assemble_ends<V, M, E>(slots: Vec<Slot<V, M, E>>) -> (r: Option<(Embed<E>, Head<V, M>)>)
    ensures
        r is Some <==> kinds_of(slots@) == seq![
            Kind::Embed,
            Kind::Vector,
            Kind::Vector,
            Kind::Matrix,
        ],
        r matches Some((embed, head)) ==> flat_ends(embed, head) == slots@,
{
    let ghost all = slots@;
    let ghost kinds = seq![Kind::Embed, Kind::Vector, Kind::Vector, Kind::Matrix];
    proof {
        lemma_whole(all, kinds);
    }
    let mut slots = slots;
    if slots.len() != 4 {
        return None;
    }
    let matrix = slots.pop();
    let b = slots.pop();
    let w = slots.pop();
    let embed = slots.pop();
    match (embed, w, b, matrix) {
        (
            Some(Slot::Embed(embed)),
            Some(Slot::Vector(w)),
            Some(Slot::Vector(b)),
            Some(Slot::Matrix(matrix)),
        ) => {
            let embed = Embed { w: embed };
            let head = Head { ln: RmsNorm { w, b }, w: matrix };
            assert(flat_ends(embed, head) =~= all);
            assert(kinds_of(all) =~= kinds);
            Some((embed, head))
        },
        _ => {
            proof {
                if starts_with(all, kinds) {
                    assert(kind_of(all[0]) == kinds[0]);
                    assert(kind_of(all[1]) == kinds[1]);
                    assert(kind_of(all[2]) == kinds[2]);
                    assert(kind_of(all[3]) == kinds[3]);
                }
            }
            None
        },
    }
}

/// What was loaded is of the kinds that were requested for a model.
pub open spec fn groups_fit<V, M, E>(
    groups: Seq<Vec<Slot<V, M, E>>>,
    info: ModelInfo,
    custom: CustomInfo,
) -> bool {
    &&& groups.len() == info.num_layer + 1
    &&& kinds_of(groups[0]@) == seq![Kind::Embed, Kind::Vector, Kind::Vector, Kind::Matrix]
    &&& forall|i: int|
        1 <= i < groups.len() ==> kinds_of((#[trigger] groups[i])@) == kinds_of(
            layer_list(0, custom, Quant::Fp16),
        )
}

/// Groups as plain values.
pub open spec fn groups_view<T>(groups: Seq<Vec<T>>) -> Seq<Seq<T>> {
    groups.map_values(|group: Vec<T>| group@)
}

/// The tensors of a model are those of the groups, in order.
pub open spec fn is_made_of<V, M, E>(
    tensor: ModelTensor<V, M, E>,
    groups: Seq<Seq<Slot<V, M, E>>>,
    custom: CustomInfo,
) -> bool {
    &&& groups.len() == tensor.layers@.len() + 1
    &&& groups[0] == flat_ends(tensor.embed, tensor.head)
    &&& forall|l: int|
        0 <= l < tensor.layers@.len() ==> groups[l + 1] == flat_layer::<V, M, E>(
            #[trigger] tensor.layers@[l],
        ) && layer_fits(tensor.layers@[l], custom)
}

/// Puts the tensors of a model together from what was loaded, group by group in the
/// order of the requests. There are none where the kinds are not those of the requests.
pub fn assemble_model<V, M, E>(
    groups: Vec<Vec<Slot<V, M, E>>>,
    info: &ModelInfo,
    custom: &CustomInfo,
) -> (r: Option<ModelTensor<V, M, E>>)
    ensures
        r is Some <==> groups_fit(groups@, *info, *custom),
        r matches Some(tensor) ==> is_made_of(tensor, groups_view(groups@), *custom),
{
    let ghost all = groups@;
    if groups.len() == 0 || groups.len() - 1 != info.num_layer {
        return None;
    }
    let mut ends: Option<(Embed<E>, Head<V, M>)> = None;
    let mut layers: Vec<Layer<V, M>> = Vec::new();
    for group in it: groups
        invariant
            it.seq() == all,
            all == groups@,
            all.len() == info.num_layer + 1,
            it.index() == 0 ==> ends is None && layers@.len() == 0,
            it.index() > 0 ==> (ends matches Some((embed, head)) && all[0]@ == flat_ends(
                embed,
                head,
            )),
            it.index() > 0 ==> kinds_of(all[0]@) == seq![
                Kind::Embed,
                Kind::Vector,
                Kind::Vector,
                Kind::Matrix,
            ],
            it.index() > 0 ==> layers@.len() == it.index() - 1,
            forall|i: int|
                1 <= i < it.index() ==> kinds_of((#[trigger] all[i])@) == kinds_of(
                    layer_list(0, *custom, Quant::Fp16),
                ),
            forall|l: int|
                0 <= l < layers@.len() ==> all[l + 1]@ == flat_layer::<V, M, E>(
                    #[trigger] layers@[l],
                ) && layer_fits(layers@[l], *custom),
    {
        let ghost k = it.index();
        assert(group == all[k]);
        if ends.is_none() {
            ends = assemble_ends(group);
            if ends.is_none() {
                return None;
            }
        } else {
            match assemble_layer(group, custom) {
                Some(layer) => {
                    layers.push(layer);
                },
                None => {
                    return None;
                },
            }
        }
    }
    match ends {
        Some((embed, head)) => Some(ModelTensor { embed, head, layers }),
        None => None,
    }
}

/// What a model is built from.
pub struct ModelBuilder<R> {
    /// The tensors of the model.
    pub model: R,
    /// The number of layers after which the hidden values are halved.
    pub rescale: Option<usize>,
    /// The number of layers that are submitted together.
    pub sep: Option<usize>,
    /// The LoRAs that are blended into it, in order.
    pub lora: Vec<Lora<R>>,
    /// How layers are quantized.
    pub quant: HashMap<usize, Quant>,
}

/// How a model is built: the requests are loaded in order, and after each group of
/// them what was submitted is waited for.
pub struct BuildPlan<R> {
    /// What is known of the model.
    pub info: ModelInfo,
    /// What only the Brumby family has.
    pub custom: CustomInfo,
    /// The number of layers after which the hidden values are halved.
    pub rescale: usize,
    /// The number of layers that are submitted together.
    pub sep: usize,
    /// Where the tensors are loaded from.
    pub loader: Loader<R>,
    /// What is loaded.
    pub requests: Vec<Vec<Request>>,
}

impl<R: Reader> BuildPlan<R> {
    /// The plan for a model of the Brumby family.
    pub open spec fn is_plan_of(&self, builder: ModelBuilder<R>, info: ModelInfo) -> bool {
        &&& self.info == info
        &&& info.custom == ModelCustomInfo::Brumby(self.custom)
        &&& self.rescale == (match builder.rescale {
            Some(rescale) => rescale,
            None => DEFAULT_RESCALE,
        })
        &&& self.sep == (match builder.sep {
            Some(sep) => sep,
            None => DEFAULT_SEP,
        })
        &&& self.loader == (Loader { model: builder.model, lora: builder.lora })
        &&& is_request_list(self.requests@, info, self.custom, builder.quant@)
    }

    /// Puts the model together from what was loaded. There is none where the kinds are
    /// not those of the requests.
    pub fn finish<V, M, E>(self, groups: Vec<Vec<Slot<V, M, E>>>) -> (r: Option<Model<V, M, E>>)
        ensures
            r is Some <==> groups_fit(groups@, self.info, self.custom),
            r matches Some(model) ==> {
                &&& model.info == self.info
                &&& model.rescale == self.rescale
                &&& model.sep == self.sep
                &&& is_made_of(model.tensor, groups_view(groups@), self.custom)
            },
    {
        match assemble_model(groups, &self.info, &self.custom) {
            Some(tensor) => Some(
                Model { info: self.info, rescale: self.rescale, sep: self.sep, tensor },
            ),
            None => None,
        }
    }
}

impl<R: Reader> ModelBuilder<R> {
    /// The tensors describe a model of the Brumby family, or none at all.
    pub open spec fn is_buildable(&self) -> bool {
        match info_outcome(&self.model) {
            InfoOutcome::Info(info) => info.custom is Brumby,
            InfoOutcome::Nonsense => false,
            _ => true,
        }
    }

    /// Plans how a model of the Brumby family is built.
    pub fn build_brumby(self) -> (r: Result<BuildPlan<R>, LoaderError>)
        requires
            self.is_buildable(),
        ensures
            match info_outcome(&self.model) {
                InfoOutcome::Info(info) => r matches Ok(plan) && plan.is_plan_of(self, info),
                outcome => r matches Err(e) && tells(&self.model, Some(Err(e)), outcome),
            },
    {
        match self.checked_build_brumby() {
            Some(r) => r,
            None => vstd::pervasive::unreached(),
        }
    }

    /// Plans how a model of the Brumby family is built. There is no plan where the
    /// model is of another family, or its shapes make no sense.
    pub fn checked_build_brumby(self) -> (r: Option<Result<BuildPlan<R>, LoaderError>>)
        ensures
            r is Some <==> self.is_buildable(),
            match info_outcome(&self.model) {
                InfoOutcome::Info(info) => r matches Some(result) ==> (result matches Ok(plan)
                    && plan.is_plan_of(self, info)),
                outcome => r matches Some(result) ==> (result matches Err(e) && tells(
                    &self.model,
                    Some(Err(e)),
                    outcome,
                )),
            },
    {
        let rescale = match self.rescale {
            Some(rescale) => rescale,
            None => DEFAULT_RESCALE,
        };
        let sep = match self.sep {
            Some(sep) => sep,
            None => DEFAULT_SEP,
        };
        let info = match Loader::checked_info(&self.model) {
            Some(Ok(info)) => info,
            Some(Err(e)) => return Some(Err(e)),
            None => return None,
        };
        match &info.custom {
            ModelCustomInfo::Brumby(custom) => {
                let requests = model_requests(&info, custom, &self.quant);
                let custom = *custom;
                let loader = Loader { model: self.model, lora: self.lora };
                Some(Ok(BuildPlan { info, custom, rescale, sep, loader, requests }))
            },
            _ => None,
        }
    }
}

// What the names say.

/// The name of a tensor of a layer says which layer it is of.
pub proof fn layer_name_reads_back(layer: usize, rest: Seq<char>)
    ensures
        begins_with(layer_base(layer) + seq!['.'] + rest, "model.layers."@),
        layer_index_of(layer_base(layer) + seq!['.'] + rest, "model.layers."@) == Some(layer),
{
    let prefix = "model.layers."@;
    let digits = decimal(layer as nat);
    let name = layer_base(layer) + seq!['.'] + rest;
    let after = digits + seq!['.'] + rest;
    decimal_round_trip(layer as nat);
    assert(name.take(prefix.len() as int) =~= prefix);
    assert(name.skip(prefix.len() as int) =~= after);
    assert forall|i: int| 0 <= i < digits.len() implies after[i] != '.' by {
        assert(crate::text::is_digit(digits[i]));
    }
    lemma_first_index_is(after, '.', digits.len() as int);
    assert(after.take(first_index(after, '.') as int) =~= digits);
}

/// Tensors of different layers have different names.
pub proof fn layers_share_no_name(a: usize, b: usize, rest_a: Seq<char>, rest_b: Seq<char>)
    requires
        a != b,
    ensures
        layer_base(a) + seq!['.'] + rest_a != layer_base(b) + seq!['.'] + rest_b,
{
    layer_name_reads_back(a, rest_a);
    layer_name_reads_back(b, rest_b);
}

/// What is loaded for a request, where `v`, `m` and `e` say what is loaded for its
/// source.
pub open spec fn loaded<V, M, E>(
    request: RequestModel,
    v: spec_fn(VectorName) -> V,
    m: spec_fn(MatrixName) -> M,
    e: spec_fn(Seq<char>) -> E,
) -> Slot<V, M, E> {
    match request {
        Slot::Vector(source) => Slot::Vector(v(source)),
        Slot::Matrix(source) => Slot::Matrix(m(source)),
        Slot::Embed(name) => Slot::Embed(e(name)),
    }
}

/// A norm with its vectors exchanged.
pub open spec fn map_norm<A, V>(norm: RmsNorm<A>, v: spec_fn(A) -> V) -> RmsNorm<V> {
    RmsNorm { w: v(norm.w), b: v(norm.b) }
}

/// What there may be, exchanged.
pub open spec fn map_option<A, V>(x: Option<A>, v: spec_fn(A) -> V) -> Option<V> {
    match x {
        Some(x) => Some(v(x)),
        None => None,
    }
}

/// A layer with its vectors and matrices exchanged.
pub open spec fn map_layer<A, B, V, M>(
    layer: Layer<A, B>,
    v: spec_fn(A) -> V,
    m: spec_fn(B) -> M,
) -> Layer<V, M> {
    let att = layer.att;
    Layer {
        input_ln: map_norm(layer.input_ln, v),
        post_att_ln: map_norm(layer.post_att_ln, v),
        att: Att {
            q_proj: m(att.q_proj),
            k_proj: m(att.k_proj),
            v_proj: m(att.v_proj),
            o_proj: m(att.o_proj),
            g_proj: m(att.g_proj),
            q_norm: match att.q_norm {
                Some(norm) => Some(map_norm(norm, v)),
                None => None,
            },
            k_norm: match att.k_norm {
                Some(norm) => Some(map_norm(norm, v)),
                None => None,
            },
            q_bias: map_option(att.q_bias, v),
            k_bias: map_option(att.k_bias, v),
            v_bias: map_option(att.v_bias, v),
            o_bias: map_option(att.o_bias, v),
            g_bias: map_option(att.g_bias, v),
        },
        ffn: match layer.ffn {
            Ffn::Gated { gate_proj, up_proj, down_proj } => Ffn::Gated {
                gate_proj: m(gate_proj),
                up_proj: m(up_proj),
                down_proj: m(down_proj),
            },
            Ffn::Dense { c_fc, c_fc_bias, c_proj, c_proj_bias } => Ffn::Dense {
                c_fc: m(c_fc),
                c_fc_bias: map_option(c_fc_bias, v),
                c_proj: m(c_proj),
                c_proj_bias: map_option(c_proj_bias, v),
            },
        },
    }
}

proof fn lemma_same_att<V, M, E>(a: Att<V, M>, b: Att<V, M>, custom: CustomInfo)
    requires
        att_fits(a, custom),
        att_fits(b, custom),
        flat_att::<V, M, E>(a) == flat_att::<V, M, E>(b),
    ensures
        a == b,
{
    let x = flat_att::<V, M, E>(a);
    let y = flat_att::<V, M, E>(b);
    assert(x[0] == Slot::<V, M, E>::Matrix(a.q_proj) && y[0] == Slot::<V, M, E>::Matrix(b.q_proj));
    assert(x[1] == Slot::<V, M, E>::Matrix(a.k_proj) && y[1] == Slot::<V, M, E>::Matrix(b.k_proj));
    assert(x[2] == Slot::<V, M, E>::Matrix(a.v_proj) && y[2] == Slot::<V, M, E>::Matrix(b.v_proj));
    assert(x[3] == Slot::<V, M, E>::Matrix(a.o_proj) && y[3] == Slot::<V, M, E>::Matrix(b.o_proj));
    assert(x[4] == Slot::<V, M, E>::Matrix(a.g_proj) && y[4] == Slot::<V, M, E>::Matrix(b.g_proj));
    let vector = |v: V| Slot::<V, M, E>::Vector(v);
    if custom.has_qk_norm {
        assert(x[5] == vector(a.q_norm->Some_0.w) && y[5] == vector(b.q_norm->Some_0.w));
        assert(x[6] == vector(a.q_norm->Some_0.b) && y[6] == vector(b.q_norm->Some_0.b));
        assert(x[7] == vector(a.k_norm->Some_0.w) && y[7] == vector(b.k_norm->Some_0.w));
        assert(x[8] == vector(a.k_norm->Some_0.b) && y[8] == vector(b.k_norm->Some_0.b));
    } else {
        assert(x[5] == vector(a.q_bias->Some_0) && y[5] == vector(b.q_bias->Some_0));
        assert(x[6] == vector(a.k_bias->Some_0) && y[6] == vector(b.k_bias->Some_0));
        assert(x[7] == vector(a.v_bias->Some_0) && y[7] == vector(b.v_bias->Some_0));
        assert(x[8] == vector(a.o_bias->Some_0) && y[8] == vector(b.o_bias->Some_0));
        assert(x[9] == vector(a.g_bias->Some_0) && y[9] == vector(b.g_bias->Some_0));
    }
}

proof fn lemma_same_ffn<V, M, E>(a: Ffn<V, M>, b: Ffn<V, M>, custom: CustomInfo)
    requires
        ffn_fits(a, custom),
        ffn_fits(b, custom),
        flat_ffn::<V, M, E>(a) == flat_ffn::<V, M, E>(b),
    ensures
        a == b,
{
    let x = flat_ffn::<V, M, E>(a);
    let y = flat_ffn::<V, M, E>(b);
    assert(x[0] == y[0] && x[1] == y[1] && x[2] == y[2] && x[3] == y[3]);
}

proof fn lemma_same_norm<V, M, E>(a: RmsNorm<V>, b: RmsNorm<V>)
    requires
        flat_norm::<V, M, E>(a) == flat_norm::<V, M, E>(b),
    ensures
        a == b,
{
    let x = flat_norm::<V, M, E>(a);
    let y = flat_norm::<V, M, E>(b);
    assert(x[0] == y[0] && x[1] == y[1]);
}

/// Two layers of a model with the same tensors in order are the same: what was
/// requested first, and so on, determines where each tensor goes.
pub proof fn order_determines_layer<V, M, E>(a: Layer<V, M>, b: Layer<V, M>, custom: CustomInfo)
    requires
        layer_fits(a, custom),
        layer_fits(b, custom),
        flat_layer::<V, M, E>(a) == flat_layer::<V, M, E>(b),
    ensures
        a == b,
{
    let x = flat_layer::<V, M, E>(a);
    let y = flat_layer::<V, M, E>(b);
    let n = flat_att::<V, M, E>(a.att).len() as int;
    assert(n == flat_att::<V, M, E>(b.att).len());
    assert(flat_norm::<V, M, E>(a.input_ln) =~= x.subrange(0, 2));
    assert(flat_norm::<V, M, E>(b.input_ln) =~= y.subrange(0, 2));
    assert(flat_att::<V, M, E>(a.att) =~= x.subrange(2, 2 + n));
    assert(flat_att::<V, M, E>(b.att) =~= y.subrange(2, 2 + n));
    assert(flat_norm::<V, M, E>(a.post_att_ln) =~= x.subrange(2 + n, 4 + n));
    assert(flat_norm::<V, M, E>(b.post_att_ln) =~= y.subrange(2 + n, 4 + n));
    assert(flat_ffn::<V, M, E>(a.ffn) =~= x.skip(4 + n));
    assert(flat_ffn::<V, M, E>(b.ffn) =~= y.skip(4 + n));
    lemma_same_norm::<V, M, E>(a.input_ln, b.input_ln);
    lemma_same_att::<V, M, E>(a.att, b.att, custom);
    lemma_same_norm::<V, M, E>(a.post_att_ln, b.post_att_ln);
    lemma_same_ffn::<V, M, E>(a.ffn, b.ffn, custom);
}

/// Every tensor of a layer is the one that was loaded under its own name.
pub proof fn layer_follows_names<V, M, E>(
    layer: Layer<V, M>,
    index: usize,
    custom: CustomInfo,
    quant: Quant,
    v: spec_fn(VectorName) -> V,
    m: spec_fn(MatrixName) -> M,
    e: spec_fn(Seq<char>) -> E,
)
    requires
        layer_fits(layer, custom),
        flat_layer::<V, M, E>(layer) == layer_list(index, custom, quant).map_values(
            |request: RequestModel| loaded(request, v, m, e),
        ),
    ensures
        layer == map_layer(layer_names(index, custom, quant), v, m),
{
    let names = layer_names(index, custom, quant);
    let f = |request: RequestModel| loaded(request, v, m, e);
    let other = map_layer(names, v, m);
    let input: Seq<RequestModel> = flat_norm(names.input_ln);
    let att: Seq<RequestModel> = flat_att(names.att);
    let post: Seq<RequestModel> = flat_norm(names.post_att_ln);
    let ffn: Seq<RequestModel> = flat_ffn(names.ffn);
    assert(input.map_values(f) =~= flat_norm::<V, M, E>(other.input_ln));
    assert(att.map_values(f) =~= flat_att::<V, M, E>(other.att));
    assert(post.map_values(f) =~= flat_norm::<V, M, E>(other.post_att_ln));
    assert(ffn.map_values(f) =~= flat_ffn::<V, M, E>(other.ffn));
    assert((input + att + post + ffn).map_values(f) =~= flat_layer::<V, M, E>(other));
    order_determines_layer::<V, M, E>(layer, other, custom);
}

} // verus!
