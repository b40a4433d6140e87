//! What the metadata of a model says of the names and shapes of its tensors.

use vstd::prelude::*;

use super::info::{
    brumby_outcome, dim_of, first_fault, has_v4, has_v5, has_v6, has_v7, indices_read, info_outcome,
    is_brumby, is_powercoder, is_top, layer_index_of, layer_prefix, lemma_fault_is_no_info,
    lemma_first_fault, lemma_top_exists, powercoder_outcome, rwkv_outcome, rwkv_version, tells,
    top_index, version_dims, Dim, InfoOutcome,
};
use super::loader::LoaderError;
use super::model::{Activation, ModelCustomInfo, ModelInfo, ModelVersion};
use super::reader::Reader;
use crate::text::{
    begins_with, decimal, decimal_round_trip, is_digit, lemma_first_index_is, usize_of,
};

verus! {

/// A tensor has a size along an axis.
pub open spec fn has_size<R: Reader>(model: &R, name: Seq<char>, axis: int, size: usize) -> bool {
    model.shape_of(name) matches Some(shape) && 0 <= axis < shape.len() && shape[axis] == size
}

proof fn lemma_faults(dims: Seq<Dim>)
    ensures
        first_fault(dims) is None ==> forall|i: int|
            0 <= i < dims.len() ==> (#[trigger] dims[i]) is Of,
        first_fault(dims) matches Some(fault) ==> fault !is Info,
{
    lemma_first_fault(dims);
    lemma_fault_is_no_info(dims);
}

/// In a PowerCoder model there are as many key-value heads as gates, the keys are made of
/// whole heads as far as they go, and so are the queries.
proof fn lemma_powercoder<R: Reader>(model: &R, info: ModelInfo)
    requires
        is_powercoder(model),
        info_outcome(model) == InfoOutcome::Info(info),
    ensures
        info.custom is Brumby,
        info.version == ModelVersion::Brumby,
        has_size(model, "model.embed_tokens.weight"@, 0, info.num_vocab),
        has_size(model, "model.embed_tokens.weight"@, 1, info.num_emb),
        has_size(model, "model.layers.0.mlp.c_fc.weight"@, 0, info.num_hidden),
        ({
            let custom = info.custom->Brumby_0;
            let q = model.shape_of("model.layers.0.self_attn.q_proj.weight"@)->Some_0;
            let k = model.shape_of("model.layers.0.self_attn.k_proj.weight"@)->Some_0;
            &&& has_size(model, "model.layers.0.self_attn.g_proj.weight"@, 0, custom.num_kv_head)
            &&& has_size(model, "model.layers.0.self_attn.q_proj.weight"@, 0, q[0])
            &&& has_size(model, "model.layers.0.self_attn.k_proj.weight"@, 0, k[0])
            &&& custom.num_kv_head > 0
            &&& custom.head_dim > 0
            &&& custom.head_dim == k[0] as int / custom.num_kv_head as int
            &&& info.num_head == q[0] as int / custom.head_dim as int
            &&& custom.intermediate_size == info.num_hidden
            &&& !custom.has_qk_norm
            &&& !custom.gated_ffn
            &&& custom.hidden_act == Activation::Gelu
            &&& custom.rope_theta_bits == 0x461c_4000
            &&& custom.power_deg == 2
        }),
{
    let emb = dim_of(model, "model.embed_tokens.weight"@, 1);
    let hidden = dim_of(model, "model.layers.0.mlp.c_fc.weight"@, 0);
    let q = dim_of(model, "model.layers.0.self_attn.q_proj.weight"@, 0);
    let k = dim_of(model, "model.layers.0.self_attn.k_proj.weight"@, 0);
    let kv = dim_of(model, "model.layers.0.self_attn.g_proj.weight"@, 0);
    let first = seq![emb, hidden];
    let second = seq![kv, k, q];
    lemma_faults(first);
    lemma_faults(second);
    assert(first_fault(first) is None);
    assert(first[0] is Of && first[1] is Of);
    assert(first_fault(second) is None);
    assert(second[0] is Of && second[1] is Of && second[2] is Of);
}

proof fn lemma_brumby<R: Reader>(model: &R, info: ModelInfo)
    requires
        !is_powercoder(model),
        is_brumby(model),
        info_outcome(model) == InfoOutcome::Info(info),
    ensures
        info.custom is Brumby,
        info.version == ModelVersion::Brumby,
        has_size(model, "model.embed_tokens.weight"@, 0, info.num_vocab),
        has_size(model, "model.embed_tokens.weight"@, 1, info.num_emb),
        has_size(model, "model.layers.0.mlp.gate_proj.weight"@, 0, info.num_hidden),
        ({
            let custom = info.custom->Brumby_0;
            let q = model.shape_of("model.layers.0.self_attn.q_proj.weight"@)->Some_0;
            let k = model.shape_of("model.layers.0.self_attn.k_proj.weight"@)->Some_0;
            &&& has_size(model, "model.layers.0.self_attn.q_norm.weight"@, 0, custom.head_dim)
            &&& has_size(model, "model.layers.0.self_attn.q_proj.weight"@, 0, q[0])
            &&& has_size(model, "model.layers.0.self_attn.k_proj.weight"@, 0, k[0])
            &&& custom.head_dim > 0
            &&& custom.num_kv_head == k[0] as int / custom.head_dim as int
            &&& info.num_head == q[0] as int / custom.head_dim as int
            &&& custom.intermediate_size == info.num_hidden
            &&& custom.has_qk_norm
            &&& custom.gated_ffn
            &&& custom.hidden_act == Activation::Silu
            &&& custom.rope_theta_bits == 0x4974_2400
            &&& custom.power_deg == 1
        }),
{
    let emb = dim_of(model, "model.embed_tokens.weight"@, 1);
    let hidden = dim_of(model, "model.layers.0.mlp.gate_proj.weight"@, 0);
    let q = dim_of(model, "model.layers.0.self_attn.q_proj.weight"@, 0);
    let k = dim_of(model, "model.layers.0.self_attn.k_proj.weight"@, 0);
    let head = dim_of(model, "model.layers.0.self_attn.q_norm.weight"@, 0);
    let first = seq![emb, hidden];
    let second = seq![head, q, k];
    lemma_faults(first);
    lemma_faults(second);
    assert(first_fault(first) is None);
    assert(first[0] is Of && first[1] is Of);
    assert(first_fault(second) is None);
    assert(second[0] is Of && second[1] is Of && second[2] is Of);
}

proof fn lemma_rwkv<R: Reader>(model: &R, info: ModelInfo)
    requires
        !is_powercoder(model),
        !is_brumby(model),
        info_outcome(model) == InfoOutcome::Info(info),
    ensures
        rwkv_version(model) == Some(info.version),
        info.version != ModelVersion::Brumby,
        has_size(model, "emb.weight"@, 0, info.num_vocab),
        has_size(model, "emb.weight"@, 1, info.num_emb),
        has_size(model, "blocks.0.ffn.key.weight"@, 0, info.num_hidden),
        info.version == ModelVersion::V4 ==> info.num_head == 1 && info.custom
            == ModelCustomInfo::Plain,
        info.version == ModelVersion::V5 ==> has_size(
            model,
            "blocks.0.att.time_first"@,
            0,
            info.num_head,
        ) && info.custom == ModelCustomInfo::Plain,
        info.version == ModelVersion::V6 ==> {
            let w1 = model.shape_of("blocks.0.att.time_mix_w1"@)->Some_0;
            &&& has_size(model, "blocks.0.att.time_first"@, 0, info.num_head)
            &&& info.custom matches ModelCustomInfo::V6(custom)
            &&& has_size(model, "blocks.0.att.time_mix_w1"@, 0, w1[0])
            &&& 5 * custom.time_mix <= w1[0] < 5 * custom.time_mix + 5
            &&& has_size(model, "blocks.0.att.time_decay_w1"@, 0, custom.time_decay)
        },
        info.version == ModelVersion::V7 ==> {
            &&& has_size(model, "blocks.0.att.r_k"@, 0, info.num_head)
            &&& info.custom matches ModelCustomInfo::V7(custom)
            &&& has_size(model, "blocks.0.att.w1"@, 0, custom.w)
            &&& has_size(model, "blocks.0.att.a1"@, 0, custom.a)
            &&& has_size(model, "blocks.0.att.g1"@, 0, custom.g)
            &&& has_size(model, "blocks.1.att.v1"@, 0, custom.v)
        },
{
    let version = rwkv_version(model)->Some_0;
    let dims = version_dims(model, version);
    lemma_faults(dims);
    assert(first_fault(dims) is None);
    if version == ModelVersion::V5 {
        assert(dims[0] is Of);
    }
    if version == ModelVersion::V6 {
        assert(dims[0] is Of && dims[1] is Of && dims[2] is Of);
    }
    if version == ModelVersion::V7 {
        assert(dims[0] is Of && dims[1] is Of && dims[2] is Of && dims[3] is Of && dims[4] is Of);
    }
}

/// The embedding table has a row for each entry of the vocabulary, and as many elements in
/// each as the model has of them, in every family of models. The first matrix of the
/// feed-forward network has a row for each hidden element.
pub proof fn sizes_are_those_of_tables<R: Reader>(model: &R, info: ModelInfo)
    requires
        info_outcome(model) == InfoOutcome::Info(info),
    ensures
        ({
            let embedding = if info.version == ModelVersion::Brumby {
                "model.embed_tokens.weight"@
            } else {
                "emb.weight"@
            };
            let network = if info.version != ModelVersion::Brumby {
                "blocks.0.ffn.key.weight"@
            } else if info.custom->Brumby_0.gated_ffn {
                "model.layers.0.mlp.gate_proj.weight"@
            } else {
                "model.layers.0.mlp.c_fc.weight"@
            };
            &&& has_size(model, embedding, 0, info.num_vocab)
            &&& has_size(model, embedding, 1, info.num_emb)
            &&& has_size(model, network, 0, info.num_hidden)
        }),
{
    if is_powercoder(model) {
        lemma_powercoder(model, info);
    } else if is_brumby(model) {
        lemma_brumby(model, info);
    } else {
        lemma_rwkv(model, info);
    }
}

/// The heads of a power-retention model: queries and keys have as many rows as their heads
/// take, and fewer than one more head would. With QK norms the norm of the queries has the
/// size of a head; without them there is a gate for each key-value head.
pub proof fn heads_are_those_of_projections<R: Reader>(model: &R, info: ModelInfo)
    requires
        info_outcome(model) == InfoOutcome::Info(info),
        info.version == ModelVersion::Brumby,
    ensures
        info.custom is Brumby,
        ({
            let custom = info.custom->Brumby_0;
            let q = model.shape_of("model.layers.0.self_attn.q_proj.weight"@)->Some_0;
            let k = model.shape_of("model.layers.0.self_attn.k_proj.weight"@)->Some_0;
            &&& has_size(model, "model.layers.0.self_attn.q_proj.weight"@, 0, q[0])
            &&& has_size(model, "model.layers.0.self_attn.k_proj.weight"@, 0, k[0])
            &&& custom.head_dim > 0
            &&& info.num_head * custom.head_dim <= q[0] < (info.num_head + 1) * custom.head_dim
            &&& custom.intermediate_size == info.num_hidden
            &&& custom.has_qk_norm ==> {
                &&& has_size(model, "model.layers.0.self_attn.q_norm.weight"@, 0, custom.head_dim)
                &&& custom.num_kv_head * custom.head_dim <= k[0] < (custom.num_kv_head + 1)
                    * custom.head_dim
            }
            &&& !custom.has_qk_norm ==> {
                &&& has_size(
                    model,
                    "model.layers.0.self_attn.g_proj.weight"@,
                    0,
                    custom.num_kv_head,
                )
                &&& custom.num_kv_head * custom.head_dim <= k[0] < custom.num_kv_head * (
                custom.head_dim + 1)
            }
        }),
{
    let custom = info.custom->Brumby_0;
    let q = model.shape_of("model.layers.0.self_attn.q_proj.weight"@)->Some_0[0];
    let k = model.shape_of("model.layers.0.self_attn.k_proj.weight"@)->Some_0[0];
    if is_powercoder(model) {
        lemma_powercoder(model, info);
        lemma_quotient(q as int, custom.head_dim as int, info.num_head as int);
        lemma_quotient(k as int, custom.num_kv_head as int, custom.head_dim as int);
        assert(custom.num_kv_head * custom.head_dim == custom.head_dim * custom.num_kv_head)
            by (nonlinear_arith);
        assert(custom.num_kv_head * (custom.head_dim + 1) == (custom.head_dim + 1)
            * custom.num_kv_head) by (nonlinear_arith);
    } else if is_brumby(model) {
        lemma_brumby(model, info);
        lemma_quotient(q as int, custom.head_dim as int, info.num_head as int);
        lemma_quotient(k as int, custom.head_dim as int, custom.num_kv_head as int);
    } else {
        lemma_rwkv(model, info);
    }
}

proof fn lemma_quotient(a: int, b: int, c: int)
    requires
        a >= 0,
        b > 0,
        c == a / b,
    ensures
        c * b <= a < (c + 1) * b,
{
    vstd::arithmetic::div_mod::lemma_fundamental_div_mod(a, b);
    assert(c * b <= a < (c + 1) * b) by (nonlinear_arith)
        requires
            a == b * c + a % b,
            0 <= a % b < b,
    ;
}

/// The two kinds of power-retention models. One has QK norms, a gated network with SiLU, a
/// rotary base of a million and degree one; the other has none, a dense network with GELU, a
/// rotary base of ten thousand and degree two. The bases stand as the bits of floats.
pub proof fn kinds_of_power_retention<R: Reader>(model: &R, info: ModelInfo)
    requires
        info_outcome(model) == InfoOutcome::Info(info),
        info.version == ModelVersion::Brumby,
    ensures
        info.custom is Brumby,
        ({
            let custom = info.custom->Brumby_0;
            let normed = model.has("model.layers.0.self_attn.q_norm.weight"@);
            &&& custom.has_qk_norm == normed
            &&& custom.gated_ffn == normed
            &&& custom.hidden_act == if normed {
                Activation::Silu
            } else {
                Activation::Gelu
            }
            &&& custom.rope_theta_bits == if normed {
                0x4974_2400u32
            } else {
                0x461c_4000u32
            }
            &&& custom.power_deg == if normed {
                1u32
            } else {
                2u32
            }
        }),
{
    if is_powercoder(model) {
        lemma_powercoder(model, info);
    } else if is_brumby(model) {
        lemma_brumby(model, info);
    } else {
        lemma_rwkv(model, info);
    }
}

/// The heads and the further sizes of an RWKV model, by its version.
pub proof fn rwkv_sizes_are_those_of_tensors<R: Reader>(model: &R, info: ModelInfo)
    requires
        info_outcome(model) == InfoOutcome::Info(info),
    ensures
        info.version == ModelVersion::V4 ==> info.num_head == 1 && info.custom
            == ModelCustomInfo::Plain,
        info.version == ModelVersion::V5 ==> has_size(
            model,
            "blocks.0.att.time_first"@,
            0,
            info.num_head,
        ) && info.custom == ModelCustomInfo::Plain,
        info.version == ModelVersion::V6 ==> {
            let w1 = model.shape_of("blocks.0.att.time_mix_w1"@)->Some_0;
            &&& has_size(model, "blocks.0.att.time_first"@, 0, info.num_head)
            &&& info.custom matches ModelCustomInfo::V6(custom)
            &&& has_size(model, "blocks.0.att.time_mix_w1"@, 0, w1[0])
            &&& 5 * custom.time_mix <= w1[0] < 5 * custom.time_mix + 5
            &&& has_size(model, "blocks.0.att.time_decay_w1"@, 0, custom.time_decay)
        },
        info.version == ModelVersion::V7 ==> {
            &&& has_size(model, "blocks.0.att.r_k"@, 0, info.num_head)
            &&& info.custom matches ModelCustomInfo::V7(custom)
            &&& has_size(model, "blocks.0.att.w1"@, 0, custom.w)
            &&& has_size(model, "blocks.0.att.a1"@, 0, custom.a)
            &&& has_size(model, "blocks.0.att.g1"@, 0, custom.g)
            &&& has_size(model, "blocks.1.att.v1"@, 0, custom.v)
        },
{
    if is_powercoder(model) {
        lemma_powercoder(model, info);
    } else if is_brumby(model) {
        lemma_brumby(model, info);
    } else {
        lemma_rwkv(model, info);
    }
}

/// A model has all tensors of a list.
pub open spec fn has_all<R: Reader>(model: &R, names: Seq<Seq<char>>) -> bool {
    forall|i: int| 0 <= i < names.len() ==> model.has(#[trigger] names[i])
}

/// The tensors by which RWKV v7 is told.
pub proof fn v7_is_told_by<R: Reader>(model: &R)
    ensures
        has_v7(model) <==> has_all(
            model,
            seq![
                "blocks.0.att.x_r"@,
                "blocks.0.att.x_w"@,
                "blocks.0.att.x_k"@,
                "blocks.0.att.x_v"@,
                "blocks.0.att.x_a"@,
                "blocks.0.att.x_g"@,
                "blocks.0.att.w0"@,
                "blocks.0.att.w1"@,
                "blocks.0.att.w2"@,
                "blocks.0.att.a0"@,
                "blocks.0.att.a1"@,
                "blocks.0.att.a2"@,
                "blocks.0.att.g1"@,
                "blocks.0.att.g2"@,
                "blocks.0.att.r_k"@,
                "blocks.0.att.k_k"@,
                "blocks.0.att.k_a"@,
            ],
        ),
{
    let names = seq![
        "blocks.0.att.x_r"@,
        "blocks.0.att.x_w"@,
        "blocks.0.att.x_k"@,
        "blocks.0.att.x_v"@,
        "blocks.0.att.x_a"@,
        "blocks.0.att.x_g"@,
        "blocks.0.att.w0"@,
        "blocks.0.att.w1"@,
        "blocks.0.att.w2"@,
        "blocks.0.att.a0"@,
        "blocks.0.att.a1"@,
        "blocks.0.att.a2"@,
        "blocks.0.att.g1"@,
        "blocks.0.att.g2"@,
        "blocks.0.att.r_k"@,
        "blocks.0.att.k_k"@,
        "blocks.0.att.k_a"@,
    ];
    if has_all(model, names) {
        assert(model.has(names[0]));
        assert(model.has(names[1]));
        assert(model.has(names[2]));
        assert(model.has(names[3]));
        assert(model.has(names[4]));
        assert(model.has(names[5]));
        assert(model.has(names[6]));
        assert(model.has(names[7]));
        assert(model.has(names[8]));
        assert(model.has(names[9]));
        assert(model.has(names[10]));
        assert(model.has(names[11]));
        assert(model.has(names[12]));
        assert(model.has(names[13]));
        assert(model.has(names[14]));
        assert(model.has(names[15]));
        assert(model.has(names[16]));
    }
}

/// The tensors by which RWKV v6 is told.
pub proof fn v6_is_told_by<R: Reader>(model: &R)
    ensures
        has_v6(model) <==> has_all(
            model,
            seq![
                "blocks.0.att.time_mix_x"@,
                "blocks.0.att.time_mix_w"@,
                "blocks.0.att.time_mix_k"@,
                "blocks.0.att.time_mix_v"@,
                "blocks.0.att.time_mix_r"@,
                "blocks.0.att.time_mix_g"@,
                "blocks.0.att.time_mix_w1"@,
                "blocks.0.att.time_mix_w2"@,
                "blocks.0.att.time_decay_w1"@,
                "blocks.0.att.time_decay_w2"@,
                "blocks.0.ffn.time_mix_k"@,
                "blocks.0.ffn.time_mix_r"@,
            ],
        ),
{
    let names = seq![
        "blocks.0.att.time_mix_x"@,
        "blocks.0.att.time_mix_w"@,
        "blocks.0.att.time_mix_k"@,
        "blocks.0.att.time_mix_v"@,
        "blocks.0.att.time_mix_r"@,
        "blocks.0.att.time_mix_g"@,
        "blocks.0.att.time_mix_w1"@,
        "blocks.0.att.time_mix_w2"@,
        "blocks.0.att.time_decay_w1"@,
        "blocks.0.att.time_decay_w2"@,
        "blocks.0.ffn.time_mix_k"@,
        "blocks.0.ffn.time_mix_r"@,
    ];
    if has_all(model, names) {
        assert(model.has(names[0]));
        assert(model.has(names[1]));
        assert(model.has(names[2]));
        assert(model.has(names[3]));
        assert(model.has(names[4]));
        assert(model.has(names[5]));
        assert(model.has(names[6]));
        assert(model.has(names[7]));
        assert(model.has(names[8]));
        assert(model.has(names[9]));
        assert(model.has(names[10]));
        assert(model.has(names[11]));
    }
}

/// The tensors by which RWKV v5 is told.
pub proof fn v5_is_told_by<R: Reader>(model: &R)
    ensures
        has_v5(model) <==> has_all(
            model,
            seq![
                "blocks.0.att.gate.weight"@,
                "blocks.0.att.ln_x.weight"@,
                "blocks.0.att.ln_x.bias"@,
            ],
        ),
{
    let names = seq![
        "blocks.0.att.gate.weight"@,
        "blocks.0.att.ln_x.weight"@,
        "blocks.0.att.ln_x.bias"@,
    ];
    if has_all(model, names) {
        assert(model.has(names[0]));
        assert(model.has(names[1]));
        assert(model.has(names[2]));
    }
}

/// The tensors by which RWKV v4 is told.
pub proof fn v4_is_told_by<R: Reader>(model: &R)
    ensures
        has_v4(model) <==> has_all(
            model,
            seq![
                "blocks.0.att.time_decay"@,
                "blocks.0.att.time_first"@,
                "blocks.0.att.time_mix_k"@,
                "blocks.0.att.time_mix_v"@,
                "blocks.0.att.time_mix_r"@,
            ],
        ),
{
    let names = seq![
        "blocks.0.att.time_decay"@,
        "blocks.0.att.time_first"@,
        "blocks.0.att.time_mix_k"@,
        "blocks.0.att.time_mix_v"@,
        "blocks.0.att.time_mix_r"@,
    ];
    if has_all(model, names) {
        assert(model.has(names[0]));
        assert(model.has(names[1]));
        assert(model.has(names[2]));
        assert(model.has(names[3]));
        assert(model.has(names[4]));
    }
}

/// The tensors by which a Brumby model is told.
pub proof fn brumby_is_told_by<R: Reader>(model: &R)
    ensures
        is_brumby(model) <==> has_all(
            model,
            seq![
                "model.embed_tokens.weight"@,
                "model.layers.0.self_attn.q_proj.weight"@,
                "model.layers.0.self_attn.k_proj.weight"@,
                "model.layers.0.self_attn.v_proj.weight"@,
                "model.layers.0.self_attn.o_proj.weight"@,
                "model.layers.0.self_attn.g_proj.weight"@,
                "model.layers.0.self_attn.q_norm.weight"@,
                "model.layers.0.self_attn.k_norm.weight"@,
                "model.layers.0.mlp.gate_proj.weight"@,
                "model.layers.0.mlp.up_proj.weight"@,
                "model.layers.0.mlp.down_proj.weight"@,
            ],
        ),
{
    let names = seq![
        "model.embed_tokens.weight"@,
        "model.layers.0.self_attn.q_proj.weight"@,
        "model.layers.0.self_attn.k_proj.weight"@,
        "model.layers.0.self_attn.v_proj.weight"@,
        "model.layers.0.self_attn.o_proj.weight"@,
        "model.layers.0.self_attn.g_proj.weight"@,
        "model.layers.0.self_attn.q_norm.weight"@,
        "model.layers.0.self_attn.k_norm.weight"@,
        "model.layers.0.mlp.gate_proj.weight"@,
        "model.layers.0.mlp.up_proj.weight"@,
        "model.layers.0.mlp.down_proj.weight"@,
    ];
    if has_all(model, names) {
        assert(model.has(names[0]));
        assert(model.has(names[1]));
        assert(model.has(names[2]));
        assert(model.has(names[3]));
        assert(model.has(names[4]));
        assert(model.has(names[5]));
        assert(model.has(names[6]));
        assert(model.has(names[7]));
        assert(model.has(names[8]));
        assert(model.has(names[9]));
        assert(model.has(names[10]));
    }
}

/// The tensors by which a PowerCoder model is told, and the one that it must not have.
pub proof fn powercoder_is_told_by<R: Reader>(model: &R)
    ensures
        is_powercoder(model) <==> has_all(
            model,
            seq![
                "model.embed_tokens.weight"@,
                "model.layers.0.self_attn.g_proj.weight"@,
                "model.layers.0.mlp.c_fc.weight"@,
                "model.layers.0.mlp.c_proj.weight"@,
            ],
        ) && !model.has("model.layers.0.self_attn.q_norm.weight"@),
{
    let names = seq![
        "model.embed_tokens.weight"@,
        "model.layers.0.self_attn.g_proj.weight"@,
        "model.layers.0.mlp.c_fc.weight"@,
        "model.layers.0.mlp.c_proj.weight"@,
    ];
    if has_all(model, names) {
        assert(model.has(names[0]));
        assert(model.has(names[1]));
        assert(model.has(names[2]));
        assert(model.has(names[3]));
    }
}

/// The version of a model is the latest whose tensors it has, where a power-retention model
/// comes before all RWKV models.
pub proof fn version_is_latest<R: Reader>(model: &R, info: ModelInfo)
    requires
        info_outcome(model) == InfoOutcome::Info(info),
    ensures
        info.version == ModelVersion::Brumby <==> is_powercoder(model) || is_brumby(model),
        info.version == ModelVersion::V7 <==> !is_powercoder(model) && !is_brumby(model) && has_v7(
            model,
        ),
        info.version == ModelVersion::V6 <==> !is_powercoder(model) && !is_brumby(model) && !has_v7(
            model,
        ) && has_v6(model),
        info.version == ModelVersion::V5 <==> !is_powercoder(model) && !is_brumby(model) && !has_v7(
            model,
        ) && !has_v6(model) && has_v5(model),
        info.version == ModelVersion::V4 <==> !is_powercoder(model) && !is_brumby(model) && !has_v7(
            model,
        ) && !has_v6(model) && !has_v5(model) && has_v4(model),
{
    if is_powercoder(model) {
        lemma_powercoder(model, info);
    } else if is_brumby(model) {
        lemma_brumby(model, info);
    } else {
        lemma_rwkv(model, info);
    }
}

/// A tensor is told to be missing only where it is.
pub proof fn missing_tensor_is_missing<R: Reader>(model: &R, name: Seq<char>)
    requires
        info_outcome(model) == InfoOutcome::NotFound(name),
    ensures
        model.shape_of(name) is None,
{
    if is_powercoder(model) {
        lemma_powercoder_missing(model, name);
    } else if is_brumby(model) {
        lemma_brumby_missing(model, name);
    } else {
        lemma_rwkv_missing(model, name);
    }
}

proof fn lemma_powercoder_missing<R: Reader>(model: &R, name: Seq<char>)
    requires
        powercoder_outcome(model) == InfoOutcome::NotFound(name),
    ensures
        model.shape_of(name) is None,
{
    let emb = dim_of(model, "model.embed_tokens.weight"@, 1);
    let hidden = dim_of(model, "model.layers.0.mlp.c_fc.weight"@, 0);
    let kv = dim_of(model, "model.layers.0.self_attn.g_proj.weight"@, 0);
    let q = dim_of(model, "model.layers.0.self_attn.q_proj.weight"@, 0);
    let k = dim_of(model, "model.layers.0.self_attn.k_proj.weight"@, 0);
    lemma_missing(model, seq![emb, hidden], name);
    lemma_missing(model, seq![kv, k, q], name);
}

proof fn lemma_brumby_missing<R: Reader>(model: &R, name: Seq<char>)
    requires
        brumby_outcome(model) == InfoOutcome::NotFound(name),
    ensures
        model.shape_of(name) is None,
{
    let emb = dim_of(model, "model.embed_tokens.weight"@, 1);
    let hidden = dim_of(model, "model.layers.0.mlp.gate_proj.weight"@, 0);
    let head = dim_of(model, "model.layers.0.self_attn.q_norm.weight"@, 0);
    let q = dim_of(model, "model.layers.0.self_attn.q_proj.weight"@, 0);
    let k = dim_of(model, "model.layers.0.self_attn.k_proj.weight"@, 0);
    lemma_missing(model, seq![emb, hidden], name);
    lemma_missing(model, seq![head, q, k], name);
}

proof fn lemma_rwkv_missing<R: Reader>(model: &R, name: Seq<char>)
    requires
        rwkv_outcome(model) == InfoOutcome::NotFound(name),
    ensures
        model.shape_of(name) is None,
{
    if rwkv_version(model) is Some {
        lemma_missing(model, version_dims(model, rwkv_version(model)->Some_0), name);
    }
}

proof fn lemma_missing<R: Reader>(model: &R, dims: Seq<Dim>, name: Seq<char>)
    requires
        forall|i: int|
            0 <= i < dims.len() ==> ((#[trigger] dims[i]) matches Dim::Missing(n)
                ==> model.shape_of(n) is None),
    ensures
        first_fault(dims) == Some(InfoOutcome::NotFound(name)) ==> model.shape_of(name) is None,
    decreases dims.len(),
{
    if dims.len() > 0 {
        let rest = dims.skip(1);
        assert forall|i: int| 0 <= i < rest.len() implies ((#[trigger] rest[i]) matches Dim::Missing(
            n,
        ) ==> model.shape_of(n) is None) by {
            assert(rest[i] == dims[i + 1]);
        }
        assert(dims[0] matches Dim::Missing(n) ==> model.shape_of(n) is None);
        lemma_missing(model, rest, name);
    }
}

/// The number of layers is one more than the largest index of a layer in the names.
pub proof fn layers_are_counted<R: Reader>(
    model: &R,
    info: ModelInfo,
    layer: usize,
    rest: Seq<char>,
)
    requires
        info_outcome(model) == InfoOutcome::Info(info),
        model.has(
            (if info.version == ModelVersion::Brumby {
                "model.layers."@
            } else {
                "blocks."@
            }) + decimal(layer as nat) + seq!['.'] + rest,
        ),
    ensures
        layer < info.num_layer,
{
    if is_powercoder(model) {
        lemma_powercoder(model, info);
    } else if is_brumby(model) {
        lemma_brumby(model, info);
    } else {
        lemma_rwkv(model, info);
    }
    let prefix = layer_prefix(model);
    let digits = decimal(layer as nat);
    let name = prefix + digits + seq!['.'] + rest;
    let after = digits + seq!['.'] + rest;
    decimal_round_trip(layer as nat);
    assert(name.take(prefix.len() as int) =~= prefix);
    assert(name.skip(prefix.len() as int) =~= after);
    assert forall|i: int| 0 <= i < digits.len() implies after[i] != '.' by {
        assert(is_digit(digits[i]));
    }
    lemma_first_index_is(after, '.', digits.len() as int);
    assert(after.take(digits.len() as int) =~= digits);
    assert(layer_index_of(name, prefix) == Some(layer));
    super::info::layers_are_those_named(model, name);
}

/// A PowerCoder model whose tensors have the sizes that are read is told as one.
pub proof fn whole_powercoder_is_told<R: Reader>(model: &R)
    requires
        is_powercoder(model),
        indices_read(model, "model.layers."@),
        top_index(model, "model.layers."@) < usize::MAX,
        model.shape_of("model.embed_tokens.weight"@) matches Some(s) && s.len() >= 2,
        model.shape_of("model.layers.0.mlp.c_fc.weight"@) matches Some(s) && s.len() >= 1,
        model.shape_of("model.layers.0.self_attn.q_proj.weight"@) matches Some(s) && s.len() >= 1,
        model.shape_of("model.layers.0.self_attn.k_proj.weight"@) matches Some(s) && s.len() >= 1,
        model.shape_of("model.layers.0.self_attn.g_proj.weight"@) matches Some(s) && s.len() >= 1
            && s[0] > 0 && model.shape_of("model.layers.0.self_attn.k_proj.weight"@)->Some_0[0]
            >= s[0],
    ensures
        info_outcome(model) is Info,
{
    let k = model.shape_of("model.layers.0.self_attn.k_proj.weight"@)->Some_0[0];
    let kv = model.shape_of("model.layers.0.self_attn.g_proj.weight"@)->Some_0[0];
    let first = seq![
        dim_of(model, "model.embed_tokens.weight"@, 1),
        dim_of(model, "model.layers.0.mlp.c_fc.weight"@, 0),
    ];
    let second = seq![
        dim_of(model, "model.layers.0.self_attn.g_proj.weight"@, 0),
        dim_of(model, "model.layers.0.self_attn.k_proj.weight"@, 0),
        dim_of(model, "model.layers.0.self_attn.q_proj.weight"@, 0),
    ];
    lemma_first_fault(first);
    lemma_first_fault(second);
    assert(k as int / kv as int >= 1) by (nonlinear_arith)
        requires
            k >= kv,
            kv > 0,
    ;
}

/// A Brumby model whose tensors have the sizes that are read is told as one.
pub proof fn whole_brumby_is_told<R: Reader>(model: &R)
    requires
        is_brumby(model),
        indices_read(model, "model.layers."@),
        top_index(model, "model.layers."@) < usize::MAX,
        model.shape_of("model.embed_tokens.weight"@) matches Some(s) && s.len() >= 2,
        model.shape_of("model.layers.0.mlp.gate_proj.weight"@) matches Some(s) && s.len() >= 1,
        model.shape_of("model.layers.0.self_attn.q_proj.weight"@) matches Some(s) && s.len() >= 1,
        model.shape_of("model.layers.0.self_attn.k_proj.weight"@) matches Some(s) && s.len() >= 1,
        model.shape_of("model.layers.0.self_attn.q_norm.weight"@) matches Some(s) && s.len() >= 1
            && s[0] > 0,
    ensures
        info_outcome(model) is Info,
{
    let first = seq![
        dim_of(model, "model.embed_tokens.weight"@, 1),
        dim_of(model, "model.layers.0.mlp.gate_proj.weight"@, 0),
    ];
    let second = seq![
        dim_of(model, "model.layers.0.self_attn.q_norm.weight"@, 0),
        dim_of(model, "model.layers.0.self_attn.q_proj.weight"@, 0),
        dim_of(model, "model.layers.0.self_attn.k_proj.weight"@, 0),
    ];
    lemma_first_fault(first);
    lemma_first_fault(second);
}

/// An RWKV model whose tensors have the sizes that are read is told as one.
pub proof fn whole_rwkv_is_told<R: Reader>(model: &R)
    requires
        !is_powercoder(model),
        !is_brumby(model),
        has_v4(model) || has_v5(model) || has_v6(model) || has_v7(model),
        indices_read(model, "blocks."@),
        top_index(model, "blocks."@) < usize::MAX,
        model.shape_of("emb.weight"@) matches Some(s) && s.len() >= 2,
        model.shape_of("blocks.0.ffn.key.weight"@) matches Some(s) && s.len() >= 1,
        has_v5(model) || has_v6(model) ==> (model.shape_of("blocks.0.att.time_first"@) matches Some(
            s,
        ) && s.len() >= 1),
        has_v6(model) ==> (model.shape_of("blocks.0.att.time_mix_w1"@) matches Some(s) && s.len()
            >= 1),
        has_v6(model) ==> (model.shape_of("blocks.0.att.time_decay_w1"@) matches Some(s) && s.len()
            >= 1),
        has_v7(model) ==> (model.shape_of("blocks.0.att.r_k"@) matches Some(s) && s.len() >= 1),
        has_v7(model) ==> (model.shape_of("blocks.0.att.w1"@) matches Some(s) && s.len() >= 1),
        has_v7(model) ==> (model.shape_of("blocks.0.att.a1"@) matches Some(s) && s.len() >= 1),
        has_v7(model) ==> (model.shape_of("blocks.0.att.g1"@) matches Some(s) && s.len() >= 1),
        has_v7(model) ==> (model.shape_of("blocks.1.att.v1"@) matches Some(s) && s.len() >= 1),
    ensures
        info_outcome(model) is Info,
{
    let version = rwkv_version(model)->Some_0;
    let dims = version_dims(model, version);
    lemma_no_fault(dims);
}

proof fn lemma_no_fault(dims: Seq<Dim>)
    requires
        dims.len() <= 5,
        dims.len() > 0 ==> dims[0] is Of,
        dims.len() > 1 ==> dims[1] is Of,
        dims.len() > 2 ==> dims[2] is Of,
        dims.len() > 3 ==> dims[3] is Of,
        dims.len() > 4 ==> dims[4] is Of,
    ensures
        first_fault(dims) is None,
    decreases dims.len(),
{
    if dims.len() > 0 {
        lemma_no_fault(dims.skip(1));
    }
}

/// A name with the prefix of layers that has no index makes the model be refused.
pub proof fn unreadable_index_is_refused<R: Reader>(model: &R, name: Seq<char>)
    requires
        model.has(name),
        begins_with(
            name,
            if is_powercoder(model) || is_brumby(model) {
                "model.layers."@
            } else {
                "blocks."@
            },
        ),
        layer_index_of(
            name,
            if is_powercoder(model) || is_brumby(model) {
                "model.layers."@
            } else {
                "blocks."@
            },
        ) is None,
    ensures
        info_outcome(model) is BadIndex,
{
}

/// Where the names are of no version, the model is refused for that.
pub proof fn unknown_model_is_refused<R: Reader>(model: &R)
    requires
        !is_powercoder(model),
        !is_brumby(model),
        !has_v4(model),
        !has_v5(model),
        !has_v6(model),
        !has_v7(model),
    ensures
        info_outcome(model) !is Info,
        indices_read(model, "blocks."@) && top_index(model, "blocks."@) < usize::MAX
            && model.shape_of("emb.weight"@) is Some && model.shape_of(
            "blocks.0.ffn.key.weight"@,
        ) is Some ==> info_outcome(model) is InvalidVersion,
{
}

/// What is answered: the metadata where the tensors describe a model; the error of the
/// reader for a tensor that is missing; and that an index is no number, or that the version
/// is not known, where it is so.
pub proof fn answers_tell_the_outcome<R: Reader>(
    model: &R,
    r: Option<Result<ModelInfo, LoaderError>>,
    outcome: InfoOutcome,
)
    requires
        tells(model, r, outcome),
    ensures
        r is None <==> outcome is Nonsense,
        r matches Some(Ok(info)) ==> outcome == InfoOutcome::Info(info),
        outcome is Info ==> (r matches Some(result) && result is Ok),
        r matches Some(Err(LoaderError::SafeTensor(e))) ==> (outcome matches InfoOutcome::NotFound(
            name,
        ) && model.shape_error(name, e)),
        r matches Some(Err(e)) ==> (e is ParseIntError <==> outcome is BadIndex),
        r matches Some(Err(e)) ==> (e is InvalidVersion <==> outcome is InvalidVersion),
{
}

/// The index of a layer is the text between the prefix and the next dot, read as a number.
/// Where there is no further dot, there is none.
pub proof fn index_ends_at_the_dot(prefix: Seq<char>, index: Seq<char>, rest: Seq<char>)
    requires
        forall|i: int| 0 <= i < index.len() ==> index[i] != '.',
    ensures
        layer_index_of(prefix + index + seq!['.'] + rest, prefix) == usize_of(index),
        layer_index_of(prefix + index, prefix) is None,
{
    let n = prefix.len() as int;
    let name = prefix + index + seq!['.'] + rest;
    let after = index + seq!['.'] + rest;
    assert(name.skip(n) =~= after);
    lemma_first_index_is(after, '.', index.len() as int);
    assert(after.take(index.len() as int) =~= index);
    assert((prefix + index).skip(n) =~= index);
    lemma_first_index_is(index, '.', index.len() as int);
}

/// Where no tensor name mentions a layer, there is one.
pub proof fn model_without_named_layers_has_one<R: Reader>(model: &R, info: ModelInfo)
    requires
        info_outcome(model) == InfoOutcome::Info(info),
        forall|name: Seq<char>| #[trigger] model.has(name) ==> !begins_with(name, "blocks."@),
        forall|name: Seq<char>| #[trigger] model.has(name) ==> !begins_with(name, "model.layers."@),
    ensures
        info.num_layer == 1,
{
    let prefix = layer_prefix(model);
    lemma_top_exists(model, prefix, usize::MAX);
    assert(is_top(model, prefix, top_index(model, prefix)));
    assert(top_index(model, prefix) == 0);
    assert forall|dims: Seq<Dim>| #[trigger] first_fault(dims) matches Some(fault) ==> fault
        !is Info by {
        lemma_fault_is_no_info(dims);
    }
    assert(info.num_layer == top_index(model, prefix) + 1);
}

/// Of the tensors that are missing, that of the embedding is told first, then that of the
/// feed-forward network, then the projections.
pub proof fn missing_tensors_are_told_in_order<R: Reader>(model: &R)
    requires
        indices_read(model, layer_prefix(model)),
        top_index(model, layer_prefix(model)) < usize::MAX,
    ensures
        is_powercoder(model) || is_brumby(model) ==> {
            let emb = "model.embed_tokens.weight"@;
            let hidden = if is_powercoder(model) {
                "model.layers.0.mlp.c_fc.weight"@
            } else {
                "model.layers.0.mlp.gate_proj.weight"@
            };
            let q = "model.layers.0.self_attn.q_proj.weight"@;
            let k = "model.layers.0.self_attn.k_proj.weight"@;
            let sizes = model.shape_of(emb) matches Some(e) && e.len() >= 2 && (model.shape_of(
                hidden,
            ) matches Some(h) && h.len() >= 1);
            &&& model.shape_of(emb) is None ==> info_outcome(model) == InfoOutcome::NotFound(emb)
            &&& (model.shape_of(emb) matches Some(e) && e.len() >= 2 && model.shape_of(hidden)
                is None) ==> info_outcome(model) == InfoOutcome::NotFound(hidden)
            &&& sizes && model.shape_of(q) is None ==> info_outcome(model)
                == InfoOutcome::NotFound(q)
            &&& sizes && model.shape_of(q) is Some && model.shape_of(k) is None ==> info_outcome(
                model,
            ) == InfoOutcome::NotFound(k)
        },
        !is_powercoder(model) && !is_brumby(model) ==> {
            let emb = "emb.weight"@;
            let hidden = "blocks.0.ffn.key.weight"@;
            &&& model.shape_of(emb) is None ==> info_outcome(model) == InfoOutcome::NotFound(emb)
            &&& model.shape_of(emb) is Some && model.shape_of(hidden) is None ==> info_outcome(
                model,
            ) == InfoOutcome::NotFound(hidden)
        },
{
    let emb = dim_of(model, "model.embed_tokens.weight"@, 1);
    let dense = dim_of(model, "model.layers.0.mlp.c_fc.weight"@, 0);
    let gated = dim_of(model, "model.layers.0.mlp.gate_proj.weight"@, 0);
    lemma_two_faults(emb, dense);
    lemma_two_faults(emb, gated);
}

proof fn lemma_two_faults(a: Dim, b: Dim)
    ensures
        a matches Dim::Missing(name) ==> first_fault(seq![a, b]) == Some(
            InfoOutcome::NotFound(name),
        ),
        a is Of ==> (b matches Dim::Missing(name) ==> first_fault(seq![a, b]) == Some(
            InfoOutcome::NotFound(name),
        )),
        a is Of && b is Of ==> first_fault(seq![a, b]) is None,
{
    reveal_with_fuel(first_fault, 3);
    assert(seq![a, b].skip(1) =~= seq![b]);
    assert(seq![b].skip(1) =~= Seq::<Dim>::empty());
}

} // verus!
