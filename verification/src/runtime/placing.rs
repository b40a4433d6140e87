//! Where each tensor of a model that was built comes from.

use vstd::prelude::*;

use super::assembly::{
    end_list, flat_ends, groups_fit, groups_view, is_made_of, is_request_list, kinds_of, layer_base,
    layer_follows_names, layer_kinds_agree, layer_list, layer_names, layer_quant, loaded,
    requests_view, Kind, MatrixName, Request, RequestModel, Slot, VectorName,
};
use super::brumby::{CustomInfo, Ffn, ModelTensor, DEFAULT_RESCALE, DEFAULT_SEP};
use super::model::{ModelInfo, Quant};
use crate::text::decimal;

verus! {

/// The name of a tensor of a layer.
pub open spec fn in_layer(layer: usize, rest: Seq<char>) -> Seq<char> {
    "model.layers."@ + decimal(layer as nat) + rest
}

proof fn lemma_weight(layer: usize, base: Seq<char>, whole: Seq<char>)
    requires
        base + ".weight"@ == whole,
    ensures
        layer_base(layer) + base + ".weight"@ == in_layer(layer, whole),
{
    assert(layer_base(layer) + base + ".weight"@ =~= in_layer(layer, whole));
}

proof fn lemma_bias(layer: usize, base: Seq<char>, whole: Seq<char>)
    requires
        base + ".bias"@ == whole,
    ensures
        layer_base(layer) + base + ".bias"@ == in_layer(layer, whole),
{
    assert(layer_base(layer) + base + ".bias"@ =~= in_layer(layer, whole));
}

proof fn lemma_weights(layer: usize)
    ensures
        layer_base(layer) + ".input_layernorm"@ + ".weight"@ == in_layer(layer, ".input_layernorm.weight"@),
        layer_base(layer) + ".post_attention_layernorm"@ + ".weight"@ == in_layer(layer, ".post_attention_layernorm.weight"@),
        layer_base(layer) + ".self_attn.q_proj"@ + ".weight"@ == in_layer(layer, ".self_attn.q_proj.weight"@),
        layer_base(layer) + ".self_attn.k_proj"@ + ".weight"@ == in_layer(layer, ".self_attn.k_proj.weight"@),
        layer_base(layer) + ".self_attn.v_proj"@ + ".weight"@ == in_layer(layer, ".self_attn.v_proj.weight"@),
        layer_base(layer) + ".self_attn.o_proj"@ + ".weight"@ == in_layer(layer, ".self_attn.o_proj.weight"@),
        layer_base(layer) + ".self_attn.g_proj"@ + ".weight"@ == in_layer(layer, ".self_attn.g_proj.weight"@),
        layer_base(layer) + ".self_attn.q_norm"@ + ".weight"@ == in_layer(layer, ".self_attn.q_norm.weight"@),
        layer_base(layer) + ".self_attn.k_norm"@ + ".weight"@ == in_layer(layer, ".self_attn.k_norm.weight"@),
        layer_base(layer) + ".mlp.gate_proj"@ + ".weight"@ == in_layer(layer, ".mlp.gate_proj.weight"@),
        layer_base(layer) + ".mlp.up_proj"@ + ".weight"@ == in_layer(layer, ".mlp.up_proj.weight"@),
        layer_base(layer) + ".mlp.down_proj"@ + ".weight"@ == in_layer(layer, ".mlp.down_proj.weight"@),
        layer_base(layer) + ".mlp.c_fc"@ + ".weight"@ == in_layer(layer, ".mlp.c_fc.weight"@),
        layer_base(layer) + ".mlp.c_proj"@ + ".weight"@ == in_layer(layer, ".mlp.c_proj.weight"@),
{
    reveal_strlit(".weight");
    reveal_strlit(".input_layernorm");
    reveal_strlit(".input_layernorm.weight");
    assert(".input_layernorm"@ + ".weight"@ =~= ".input_layernorm.weight"@);
    lemma_weight(layer, ".input_layernorm"@, ".input_layernorm.weight"@);
    reveal_strlit(".post_attention_layernorm");
    reveal_strlit(".post_attention_layernorm.weight");
    assert(".post_attention_layernorm"@ + ".weight"@ =~= ".post_attention_layernorm.weight"@);
    lemma_weight(layer, ".post_attention_layernorm"@, ".post_attention_layernorm.weight"@);
    reveal_strlit(".self_attn.q_proj");
    reveal_strlit(".self_attn.q_proj.weight");
    assert(".self_attn.q_proj"@ + ".weight"@ =~= ".self_attn.q_proj.weight"@);
    lemma_weight(layer, ".self_attn.q_proj"@, ".self_attn.q_proj.weight"@);
    reveal_strlit(".self_attn.k_proj");
    reveal_strlit(".self_attn.k_proj.weight");
    assert(".self_attn.k_proj"@ + ".weight"@ =~= ".self_attn.k_proj.weight"@);
    lemma_weight(layer, ".self_attn.k_proj"@, ".self_attn.k_proj.weight"@);
    reveal_strlit(".self_attn.v_proj");
    reveal_strlit(".self_attn.v_proj.weight");
    assert(".self_attn.v_proj"@ + ".weight"@ =~= ".self_attn.v_proj.weight"@);
    lemma_weight(layer, ".self_attn.v_proj"@, ".self_attn.v_proj.weight"@);
    reveal_strlit(".self_attn.o_proj");
    reveal_strlit(".self_attn.o_proj.weight");
    assert(".self_attn.o_proj"@ + ".weight"@ =~= ".self_attn.o_proj.weight"@);
    lemma_weight(layer, ".self_attn.o_proj"@, ".self_attn.o_proj.weight"@);
    reveal_strlit(".self_attn.g_proj");
    reveal_strlit(".self_attn.g_proj.weight");
    assert(".self_attn.g_proj"@ + ".weight"@ =~= ".self_attn.g_proj.weight"@);
    lemma_weight(layer, ".self_attn.g_proj"@, ".self_attn.g_proj.weight"@);
    reveal_strlit(".self_attn.q_norm");
    reveal_strlit(".self_attn.q_norm.weight");
    assert(".self_attn.q_norm"@ + ".weight"@ =~= ".self_attn.q_norm.weight"@);
    lemma_weight(layer, ".self_attn.q_norm"@, ".self_attn.q_norm.weight"@);
    reveal_strlit(".self_attn.k_norm");
    reveal_strlit(".self_attn.k_norm.weight");
    assert(".self_attn.k_norm"@ + ".weight"@ =~= ".self_attn.k_norm.weight"@);
    lemma_weight(layer, ".self_attn.k_norm"@, ".self_attn.k_norm.weight"@);
    reveal_strlit(".mlp.gate_proj");
    reveal_strlit(".mlp.gate_proj.weight");
    assert(".mlp.gate_proj"@ + ".weight"@ =~= ".mlp.gate_proj.weight"@);
    lemma_weight(layer, ".mlp.gate_proj"@, ".mlp.gate_proj.weight"@);
    reveal_strlit(".mlp.up_proj");
    reveal_strlit(".mlp.up_proj.weight");
    assert(".mlp.up_proj"@ + ".weight"@ =~= ".mlp.up_proj.weight"@);
    lemma_weight(layer, ".mlp.up_proj"@, ".mlp.up_proj.weight"@);
    reveal_strlit(".mlp.down_proj");
    reveal_strlit(".mlp.down_proj.weight");
    assert(".mlp.down_proj"@ + ".weight"@ =~= ".mlp.down_proj.weight"@);
    lemma_weight(layer, ".mlp.down_proj"@, ".mlp.down_proj.weight"@);
    reveal_strlit(".mlp.c_fc");
    reveal_strlit(".mlp.c_fc.weight");
    assert(".mlp.c_fc"@ + ".weight"@ =~= ".mlp.c_fc.weight"@);
    lemma_weight(layer, ".mlp.c_fc"@, ".mlp.c_fc.weight"@);
    reveal_strlit(".mlp.c_proj");
    reveal_strlit(".mlp.c_proj.weight");
    assert(".mlp.c_proj"@ + ".weight"@ =~= ".mlp.c_proj.weight"@);
    lemma_weight(layer, ".mlp.c_proj"@, ".mlp.c_proj.weight"@);
}

proof fn lemma_biases(layer: usize)
    ensures
        layer_base(layer) + ".input_layernorm"@ + ".bias"@ == in_layer(layer, ".input_layernorm.bias"@),
        layer_base(layer) + ".post_attention_layernorm"@ + ".bias"@ == in_layer(layer, ".post_attention_layernorm.bias"@),
        layer_base(layer) + ".self_attn.q_proj"@ + ".bias"@ == in_layer(layer, ".self_attn.q_proj.bias"@),
        layer_base(layer) + ".self_attn.k_proj"@ + ".bias"@ == in_layer(layer, ".self_attn.k_proj.bias"@),
        layer_base(layer) + ".self_attn.v_proj"@ + ".bias"@ == in_layer(layer, ".self_attn.v_proj.bias"@),
        layer_base(layer) + ".self_attn.o_proj"@ + ".bias"@ == in_layer(layer, ".self_attn.o_proj.bias"@),
        layer_base(layer) + ".self_attn.g_proj"@ + ".bias"@ == in_layer(layer, ".self_attn.g_proj.bias"@),
        layer_base(layer) + ".mlp.c_fc"@ + ".bias"@ == in_layer(layer, ".mlp.c_fc.bias"@),
        layer_base(layer) + ".mlp.c_proj"@ + ".bias"@ == in_layer(layer, ".mlp.c_proj.bias"@),
{
    reveal_strlit(".bias");
    reveal_strlit(".input_layernorm");
    reveal_strlit(".input_layernorm.bias");
    assert(".input_layernorm"@ + ".bias"@ =~= ".input_layernorm.bias"@);
    lemma_bias(layer, ".input_layernorm"@, ".input_layernorm.bias"@);
    reveal_strlit(".post_attention_layernorm");
    reveal_strlit(".post_attention_layernorm.bias");
    assert(".post_attention_layernorm"@ + ".bias"@ =~= ".post_attention_layernorm.bias"@);
    lemma_bias(layer, ".post_attention_layernorm"@, ".post_attention_layernorm.bias"@);
    reveal_strlit(".self_attn.q_proj");
    reveal_strlit(".self_attn.q_proj.bias");
    assert(".self_attn.q_proj"@ + ".bias"@ =~= ".self_attn.q_proj.bias"@);
    lemma_bias(layer, ".self_attn.q_proj"@, ".self_attn.q_proj.bias"@);
    reveal_strlit(".self_attn.k_proj");
    reveal_strlit(".self_attn.k_proj.bias");
    assert(".self_attn.k_proj"@ + ".bias"@ =~= ".self_attn.k_proj.bias"@);
    lemma_bias(layer, ".self_attn.k_proj"@, ".self_attn.k_proj.bias"@);
    reveal_strlit(".self_attn.v_proj");
    reveal_strlit(".self_attn.v_proj.bias");
    assert(".self_attn.v_proj"@ + ".bias"@ =~= ".self_attn.v_proj.bias"@);
    lemma_bias(layer, ".self_attn.v_proj"@, ".self_attn.v_proj.bias"@);
    reveal_strlit(".self_attn.o_proj");
    reveal_strlit(".self_attn.o_proj.bias");
    assert(".self_attn.o_proj"@ + ".bias"@ =~= ".self_attn.o_proj.bias"@);
    lemma_bias(layer, ".self_attn.o_proj"@, ".self_attn.o_proj.bias"@);
    reveal_strlit(".self_attn.g_proj");
    reveal_strlit(".self_attn.g_proj.bias");
    assert(".self_attn.g_proj"@ + ".bias"@ =~= ".self_attn.g_proj.bias"@);
    lemma_bias(layer, ".self_attn.g_proj"@, ".self_attn.g_proj.bias"@);
    reveal_strlit(".mlp.c_fc");
    reveal_strlit(".mlp.c_fc.bias");
    assert(".mlp.c_fc"@ + ".bias"@ =~= ".mlp.c_fc.bias"@);
    lemma_bias(layer, ".mlp.c_fc"@, ".mlp.c_fc.bias"@);
    reveal_strlit(".mlp.c_proj");
    reveal_strlit(".mlp.c_proj.bias");
    assert(".mlp.c_proj"@ + ".bias"@ =~= ".mlp.c_proj.bias"@);
    lemma_bias(layer, ".mlp.c_proj"@, ".mlp.c_proj.bias"@);
}

/// Every tensor of a layer has the name of the part that it is. Where there are no QK
/// norms, there are biases, and the bias of a projection has the name of its matrix with
/// `.bias` for `.weight`.
pub proof fn names_are_those_of_parts(layer: usize, custom: CustomInfo, quant: Quant)
    ensures
        ({
            let names = layer_names(layer, custom, quant);
            let bias = !custom.has_qk_norm;
            &&& names.input_ln.w == VectorName::File(in_layer(layer, ".input_layernorm.weight"@))
            &&& names.input_ln.b == if bias {
                VectorName::File(in_layer(layer, ".input_layernorm.bias"@))
            } else {
                VectorName::Zeros
            }
            &&& names.post_att_ln.w == VectorName::File(in_layer(layer, ".post_attention_layernorm.weight"@))
            &&& names.post_att_ln.b == if bias {
                VectorName::File(in_layer(layer, ".post_attention_layernorm.bias"@))
            } else {
                VectorName::Zeros
            }
            &&& names.att.q_proj == MatrixName::Stored(in_layer(layer, ".self_attn.q_proj.weight"@), quant)
            &&& names.att.k_proj == MatrixName::Stored(in_layer(layer, ".self_attn.k_proj.weight"@), quant)
            &&& names.att.v_proj == MatrixName::Stored(in_layer(layer, ".self_attn.v_proj.weight"@), quant)
            &&& names.att.o_proj == MatrixName::Stored(in_layer(layer, ".self_attn.o_proj.weight"@), quant)
            &&& names.att.g_proj == MatrixName::Stored(in_layer(layer, ".self_attn.g_proj.weight"@), quant)
            &&& names.att.q_bias == if bias {
                Some(VectorName::File(in_layer(layer, ".self_attn.q_proj.bias"@)))
            } else {
                None
            }
            &&& names.att.k_bias == if bias {
                Some(VectorName::File(in_layer(layer, ".self_attn.k_proj.bias"@)))
            } else {
                None
            }
            &&& names.att.v_bias == if bias {
                Some(VectorName::File(in_layer(layer, ".self_attn.v_proj.bias"@)))
            } else {
                None
            }
            &&& names.att.o_bias == if bias {
                Some(VectorName::File(in_layer(layer, ".self_attn.o_proj.bias"@)))
            } else {
                None
            }
            &&& names.att.g_bias == if bias {
                Some(VectorName::File(in_layer(layer, ".self_attn.g_proj.bias"@)))
            } else {
                None
            }
            &&& custom.has_qk_norm ==> (names.att.q_norm matches Some(norm) && norm.w == VectorName::File(in_layer(layer, ".self_attn.q_norm.weight"@)) && norm.b == VectorName::Zeros)
            &&& !custom.has_qk_norm ==> names.att.q_norm is None
            &&& custom.has_qk_norm ==> (names.att.k_norm matches Some(norm) && norm.w == VectorName::File(in_layer(layer, ".self_attn.k_norm.weight"@)) && norm.b == VectorName::Zeros)
            &&& !custom.has_qk_norm ==> names.att.k_norm is None
            &&& custom.gated_ffn ==> (names.ffn matches Ffn::Gated { gate_proj, up_proj, down_proj }
                && gate_proj == MatrixName::Stored(in_layer(layer, ".mlp.gate_proj.weight"@), quant) && up_proj == MatrixName::Stored(in_layer(layer, ".mlp.up_proj.weight"@), quant) && down_proj
                == MatrixName::Stored(in_layer(layer, ".mlp.down_proj.weight"@), quant))
            &&& !custom.gated_ffn ==> (names.ffn matches Ffn::Dense {
                c_fc,
                c_fc_bias,
                c_proj,
                c_proj_bias,
            } && c_fc == MatrixName::Stored(in_layer(layer, ".mlp.c_fc.weight"@), quant) && c_proj == MatrixName::Stored(in_layer(layer, ".mlp.c_proj.weight"@), quant) && c_fc_bias == (if bias {
                Some(VectorName::File(in_layer(layer, ".mlp.c_fc.bias"@)))
            } else {
                None
            }) && c_proj_bias == (if bias {
                Some(VectorName::File(in_layer(layer, ".mlp.c_proj.bias"@)))
            } else {
                None
            }))
        }),
{
    lemma_weights(layer);
    lemma_biases(layer);
}

/// The tensors that no layer has: the embedding, and the norm and the matrix of the head.
pub proof fn ends_have_their_names(custom: CustomInfo)
    ensures
        end_list(custom) == seq![
            Slot::Embed("model.embed_tokens.weight"@),
            Slot::Vector(VectorName::File("model.norm.weight"@)),
            Slot::Vector(
                if custom.has_qk_norm {
                    VectorName::Zeros
                } else {
                    VectorName::File("model.norm.bias"@)
                },
            ),
            Slot::Matrix(MatrixName::Padded("lm_head.weight"@)),
        ],
{
    reveal_strlit("model.norm");
    reveal_strlit(".weight");
    reveal_strlit(".bias");
    reveal_strlit("model.norm.weight");
    reveal_strlit("model.norm.bias");
    assert("model.norm"@ + ".weight"@ =~= "model.norm.weight"@);
    assert("model.norm"@ + ".bias"@ =~= "model.norm.bias"@);
    assert(end_list(custom) =~= seq![
        Slot::Embed("model.embed_tokens.weight"@),
        Slot::Vector(VectorName::File("model.norm.weight"@)),
        Slot::Vector(
            if custom.has_qk_norm {
                VectorName::Zeros
            } else {
                VectorName::File("model.norm.bias"@)
            },
        ),
        Slot::Matrix(MatrixName::Padded("lm_head.weight"@)),
    ]);
}

/// What was loaded for the requests of a model, group by group.
pub open spec fn loaded_groups<V, M, E>(
    requests: Seq<Vec<Request>>,
    v: spec_fn(VectorName) -> V,
    m: spec_fn(MatrixName) -> M,
    e: spec_fn(Seq<char>) -> E,
) -> Seq<Seq<Slot<V, M, E>>> {
    Seq::new(
        requests.len(),
        |i: int|
            requests_view(requests[i]@).map_values(|request: RequestModel| loaded(request, v, m, e)),
    )
}

/// The layers of a model that was put together from what was loaded for its requests are
/// the named ones: each tensor of layer `layer` is what was loaded under the name of that
/// layer and of the part that the tensor is.
pub proof fn model_layer_follows_names<V, M, E>(
    tensor: ModelTensor<V, M, E>,
    requests: Seq<Vec<Request>>,
    info: ModelInfo,
    custom: CustomInfo,
    quants: Map<usize, Quant>,
    v: spec_fn(VectorName) -> V,
    m: spec_fn(MatrixName) -> M,
    e: spec_fn(Seq<char>) -> E,
    layer: usize,
)
    requires
        is_request_list(requests, info, custom, quants),
        is_made_of(tensor, loaded_groups(requests, v, m, e), custom),
        layer < info.num_layer,
    ensures
        tensor.layers@.len() == info.num_layer,
        ({
            let own = tensor.layers@[layer as int];
            let bias = !custom.has_qk_norm;
            let quant = if quants.contains_key(layer) {
                quants[layer]
            } else {
                Quant::Fp16
            };
            &&& own.input_ln.w == v(VectorName::File(in_layer(layer, ".input_layernorm.weight"@)))
            &&& own.input_ln.b == if bias {
                v(VectorName::File(in_layer(layer, ".input_layernorm.bias"@)))
            } else {
                v(VectorName::Zeros)
            }
            &&& own.post_att_ln.w == v(VectorName::File(in_layer(layer, ".post_attention_layernorm.weight"@)))
            &&& own.post_att_ln.b == if bias {
                v(VectorName::File(in_layer(layer, ".post_attention_layernorm.bias"@)))
            } else {
                v(VectorName::Zeros)
            }
            &&& own.att.q_proj == m(MatrixName::Stored(in_layer(layer, ".self_attn.q_proj.weight"@), quant))
            &&& own.att.k_proj == m(MatrixName::Stored(in_layer(layer, ".self_attn.k_proj.weight"@), quant))
            &&& own.att.v_proj == m(MatrixName::Stored(in_layer(layer, ".self_attn.v_proj.weight"@), quant))
            &&& own.att.o_proj == m(MatrixName::Stored(in_layer(layer, ".self_attn.o_proj.weight"@), quant))
            &&& own.att.g_proj == m(MatrixName::Stored(in_layer(layer, ".self_attn.g_proj.weight"@), quant))
            &&& own.att.q_bias == if bias {
                Some(v(VectorName::File(in_layer(layer, ".self_attn.q_proj.bias"@))))
            } else {
                None
            }
            &&& own.att.k_bias == if bias {
                Some(v(VectorName::File(in_layer(layer, ".self_attn.k_proj.bias"@))))
            } else {
                None
            }
            &&& own.att.v_bias == if bias {
                Some(v(VectorName::File(in_layer(layer, ".self_attn.v_proj.bias"@))))
            } else {
                None
            }
            &&& own.att.o_bias == if bias {
                Some(v(VectorName::File(in_layer(layer, ".self_attn.o_proj.bias"@))))
            } else {
                None
            }
            &&& own.att.g_bias == if bias {
                Some(v(VectorName::File(in_layer(layer, ".self_attn.g_proj.bias"@))))
            } else {
                None
            }
            &&& custom.has_qk_norm ==> (own.att.q_norm matches Some(norm) && norm.w == v(VectorName::File(in_layer(layer, ".self_attn.q_norm.weight"@))) && norm.b == v(VectorName::Zeros))
            &&& !custom.has_qk_norm ==> own.att.q_norm is None
            &&& custom.has_qk_norm ==> (own.att.k_norm matches Some(norm) && norm.w == v(VectorName::File(in_layer(layer, ".self_attn.k_norm.weight"@))) && norm.b == v(VectorName::Zeros))
            &&& !custom.has_qk_norm ==> own.att.k_norm is None
            &&& custom.gated_ffn ==> (own.ffn matches Ffn::Gated { gate_proj, up_proj, down_proj }
                && gate_proj == m(MatrixName::Stored(in_layer(layer, ".mlp.gate_proj.weight"@), quant)) && up_proj == m(MatrixName::Stored(in_layer(layer, ".mlp.up_proj.weight"@), quant)) && down_proj
                == m(MatrixName::Stored(in_layer(layer, ".mlp.down_proj.weight"@), quant)))
            &&& !custom.gated_ffn ==> (own.ffn matches Ffn::Dense {
                c_fc,
                c_fc_bias,
                c_proj,
                c_proj_bias,
            } && c_fc == m(MatrixName::Stored(in_layer(layer, ".mlp.c_fc.weight"@), quant)) && c_proj == m(MatrixName::Stored(in_layer(layer, ".mlp.c_proj.weight"@), quant)) && c_fc_bias == (if bias {
                Some(v(VectorName::File(in_layer(layer, ".mlp.c_fc.bias"@))))
            } else {
                None
            }) && c_proj_bias == (if bias {
                Some(v(VectorName::File(in_layer(layer, ".mlp.c_proj.bias"@))))
            } else {
                None
            }))
        }),
{
    let groups = loaded_groups(requests, v, m, e);
    let own = tensor.layers@[layer as int];
    let quant = layer_quant(quants, layer);
    assert(groups[layer + 1] == requests_view(requests[layer + 1]@).map_values(
        |request: RequestModel| loaded(request, v, m, e),
    ));
    assert(requests_view(requests[layer + 1]@) == layer_list(layer, custom, quant));
    layer_follows_names::<V, M, E>(own, layer, custom, quant, v, m, e);
    names_are_those_of_parts(layer, custom, quant);
}

/// The embedding and the head of a model that was put together from what was loaded for its
/// requests are the named ones.
pub proof fn model_ends_follow_names<V, M, E>(
    tensor: ModelTensor<V, M, E>,
    requests: Seq<Vec<Request>>,
    info: ModelInfo,
    custom: CustomInfo,
    quants: Map<usize, Quant>,
    v: spec_fn(VectorName) -> V,
    m: spec_fn(MatrixName) -> M,
    e: spec_fn(Seq<char>) -> E,
)
    requires
        is_request_list(requests, info, custom, quants),
        is_made_of(tensor, loaded_groups(requests, v, m, e), custom),
    ensures
        tensor.embed.w == e("model.embed_tokens.weight"@),
        tensor.head.w == m(MatrixName::Padded("lm_head.weight"@)),
        tensor.head.ln.w == v(VectorName::File("model.norm.weight"@)),
        tensor.head.ln.b == v(
            if custom.has_qk_norm {
                VectorName::Zeros
            } else {
                VectorName::File("model.norm.bias"@)
            },
        ),
{
    let groups = loaded_groups(requests, v, m, e);
    let ends = flat_ends::<V, M, E>(tensor.embed, tensor.head);
    ends_have_their_names(custom);
    assert(groups[0] == requests_view(requests[0]@).map_values(
        |request: RequestModel| loaded(request, v, m, e),
    ));
    assert(ends[0] == groups[0][0]);
    assert(ends[1] == groups[0][1]);
    assert(ends[2] == groups[0][2]);
    assert(ends[3] == groups[0][3]);
}

/// Unless it is set, layers are submitted by 1024, and no layer that can be counted halves
/// the hidden values.
pub proof fn defaults_are()
    ensures
        DEFAULT_SEP == 1024,
        DEFAULT_RESCALE == usize::MAX,
{
}

proof fn lemma_loaded_kinds<V, M, E>(
    requests: Seq<RequestModel>,
    v: spec_fn(VectorName) -> V,
    m: spec_fn(MatrixName) -> M,
    e: spec_fn(Seq<char>) -> E,
)
    ensures
        kinds_of(
            requests.map_values(|request: RequestModel| loaded(request, v, m, e)),
        ) == kinds_of(requests),
{
    assert(kinds_of(requests.map_values(|request: RequestModel| loaded(request, v, m, e)))
        =~= kinds_of(requests));
}

/// What was loaded for the requests of a model can always be put together.
pub proof fn loaded_groups_fit<V, M, E>(
    groups: Seq<Vec<Slot<V, M, E>>>,
    requests: Seq<Vec<Request>>,
    info: ModelInfo,
    custom: CustomInfo,
    quants: Map<usize, Quant>,
    v: spec_fn(VectorName) -> V,
    m: spec_fn(MatrixName) -> M,
    e: spec_fn(Seq<char>) -> E,
)
    requires
        is_request_list(requests, info, custom, quants),
        groups_view(groups) == loaded_groups(requests, v, m, e),
    ensures
        groups_fit(groups, info, custom),
{
    let all = loaded_groups(requests, v, m, e);
    assert(groups.len() == groups_view(groups).len());
    assert forall|i: int| 0 <= i < groups.len() implies (#[trigger] groups[i])@ == all[i] by {
        assert(groups_view(groups)[i] == groups[i]@);
    }
    lemma_loaded_kinds(requests_view(requests[0]@), v, m, e);
    ends_have_their_names(custom);
    assert(groups[0]@ == all[0]);
    assert(kinds_of(end_list(custom)) =~= seq![
        Kind::Embed,
        Kind::Vector,
        Kind::Vector,
        Kind::Matrix,
    ]);
    assert forall|i: int| 1 <= i < groups.len() implies kinds_of((#[trigger] groups[i])@)
        == kinds_of(layer_list(0, custom, Quant::Fp16)) by {
        let layer = (i - 1) as usize;
        let quant = layer_quant(quants, layer);
        assert(groups[i]@ == all[i]);
        assert(requests_view(requests[i]@) == layer_list(layer, custom, quant));
        lemma_loaded_kinds(requests_view(requests[i]@), v, m, e);
        layer_kinds_agree(layer, 0, custom, quant, Quant::Fp16);
    }
}

} // verus!
