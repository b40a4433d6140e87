//! What the names of a power-retention model's tensors say, and that no two are the same.

use vstd::prelude::*;

use super::assembly::{
    att_names, end_list, ffn_names, flat_att, flat_ffn, flat_norm, flat_norm_option,
    flat_projections, layer_base, layer_list, layer_name_reads_back, layer_names, norm_names,
    use_bias, MatrixName, RequestModel, Slot, VectorName,
};
use super::brumby::CustomInfo;
use super::info::layer_index_of;
use super::model::Quant;
use crate::text::{
    begins_with, find_char, head, lemma_first_index, parse_usize, strip_prefix, to_chars,
};

verus! {

/// What a request asks for: a tensor of a kind by its name. There is one embedding.
pub enum Key {
    Vector(Seq<char>),
    Matrix(Seq<char>),
    Embed,
}

/// What a request asks for. Zeros are asked for by no name.
pub open spec fn key_of(request: RequestModel) -> Option<Key> {
    match request {
        Slot::Vector(VectorName::File(name)) => Some(Key::Vector(name)),
        Slot::Vector(VectorName::Zeros) => None,
        Slot::Matrix(MatrixName::Padded(name)) | Slot::Matrix(
            MatrixName::Stored(name, _),
        ) => Some(Key::Matrix(name)),
        Slot::Embed(_) => Some(Key::Embed),
    }
}

/// No two requests ask for the same tensor.
pub open spec fn distinct_keys(requests: Seq<RequestModel>) -> bool {
    forall|i: int, j: int|
        0 <= i < j < requests.len() && key_of(#[trigger] requests[i]) is Some ==> key_of(
            requests[i],
        ) != key_of(#[trigger] requests[j])
}

/// The layer that a tensor name mentions.
pub open spec fn named_layer(name: Seq<char>) -> Option<usize> {
    if begins_with(name, "model.layers."@) {
        layer_index_of(name, "model.layers."@)
    } else {
        None
    }
}

/// Extract layer index from tensor names like "model.layers.5.self_attn.q_proj.weight".
pub fn extract_layer_index(name: &str) -> (r: Option<usize>)
    ensures
        r == named_layer(name@),
{
    let chars = to_chars(name);
    match strip_prefix(chars.as_slice(), "model.layers.") {
        Some(rest) => {
            let dot = find_char(rest.as_slice(), '.');
            proof {
                lemma_first_index(rest@, '.');
            }
            if dot < rest.len() {
                parse_usize(head(rest.as_slice(), dot).as_slice())
            } else {
                None
            }
        },
        None => None,
    }
}

/// The layer of the tensor that is asked for.
pub open spec fn key_layer(key: Key) -> Option<usize> {
    match key {
        Key::Vector(name) | Key::Matrix(name) => named_layer(name),
        Key::Embed => None,
    }
}

/// A number for what follows the base of a layer in a name. Of what a layer has, the
/// tensors have different numbers, which increase in the order of the requests.
spec fn suffix_code(matrix: bool, s: Seq<char>) -> int {
    if s[1] == 'i' {
        if s.len() == 23 {
            0
        } else {
            1
        }
    } else if s[1] == 's' {
        (if matrix {
            10int
        } else {
            20
        }) + (if s[11] == 'q' {
            0int
        } else if s[11] == 'k' {
            1
        } else if s[11] == 'v' {
            2
        } else if s[11] == 'o' {
            3
        } else {
            4
        })
    } else if s[1] == 'p' {
        if s.len() == 32 {
            30
        } else {
            31
        }
    } else if s[5] == 'g' {
        40
    } else if s[5] == 'u' {
        41
    } else if s[5] == 'd' {
        42
    } else {
        (if s[7] == 'f' {
            43int
        } else {
            45
        }) + (if matrix {
            0int
        } else {
            1
        })
    }
}

/// The tensor is one of the layer with this base, with a number in the given range.
spec fn key_fits(key: Key, base: Seq<char>, lo: int, hi: int) -> bool {
    match key {
        Key::Vector(name) => name_fits(name, base) && lo <= suffix_code(
            false,
            name.skip(base.len() as int),
        ) < hi,
        Key::Matrix(name) => name_fits(name, base) && lo <= suffix_code(
            true,
            name.skip(base.len() as int),
        ) < hi,
        Key::Embed => false,
    }
}

spec fn name_fits(name: Seq<char>, base: Seq<char>) -> bool {
    &&& begins_with(name, base)
    &&& name.len() > base.len()
    &&& name[base.len() as int] == '.'
}

/// The requests are for tensors of the layer with this base, with numbers in the given
/// range that no two share.
spec fn list_fits(requests: Seq<RequestModel>, base: Seq<char>, lo: int, hi: int) -> bool {
    &&& lo <= hi
    &&& distinct_keys(requests)
    &&& forall|i: int|
        0 <= i < requests.len() ==> (key_of(#[trigger] requests[i]) matches Some(key) ==> key_fits(
            key,
            base,
            lo,
            hi,
        ))
}

proof fn lemma_join(
    a: Seq<RequestModel>,
    b: Seq<RequestModel>,
    base: Seq<char>,
    lo: int,
    mid: int,
    hi: int,
)
    requires
        list_fits(a, base, lo, mid),
        list_fits(b, base, mid, hi),
    ensures
        list_fits(a + b, base, lo, hi),
{
    let c = a + b;
    assert forall|i: int| 0 <= i < c.len() implies (key_of(#[trigger] c[i]) matches Some(key)
        ==> key_fits(key, base, lo, hi)) by {
        if i < a.len() {
            assert(c[i] == a[i]);
        } else {
            assert(c[i] == b[i - a.len()]);
        }
    }
    assert forall|i: int, j: int|
        0 <= i < j < c.len() && key_of(#[trigger] c[i]) is Some implies key_of(c[i]) != key_of(
        #[trigger] c[j],
    ) by {
        if j < a.len() {
            assert(c[i] == a[i] && c[j] == a[j]);
        } else if i >= a.len() {
            assert(c[i] == b[i - a.len()] && c[j] == b[j - a.len()]);
        } else {
            assert(c[i] == a[i] && c[j] == b[j - a.len()]);
        }
    }
}

proof fn lemma_suffix(base: Seq<char>, a: Seq<char>, b: Seq<char>)
    requires
        a.len() > 0,
        a[0] == '.',
    ensures
        (base + a + b).skip(base.len() as int) == a + b,
        name_fits(base + a + b, base),
{
    let name = base + a + b;
    assert(name.skip(base.len() as int) =~= a + b);
    assert(name.take(base.len() as int) =~= base);
}

proof fn lemma_input_norm(l: Seq<char>, bias: bool)
    ensures
        list_fits(flat_norm(norm_names(l + ".input_layernorm"@, bias)), l, 0, 10),
{
    reveal_strlit(".input_layernorm");
    reveal_strlit(".weight");
    reveal_strlit(".bias");
    lemma_suffix(l, ".input_layernorm"@, ".weight"@);
    lemma_suffix(l, ".input_layernorm"@, ".bias"@);
    let list: Seq<RequestModel> = flat_norm(norm_names(l + ".input_layernorm"@, bias));
    assert(list.len() == 2);
    assert(suffix_code(false, ".input_layernorm"@ + ".weight"@) == 0);
    assert(suffix_code(false, ".input_layernorm"@ + ".bias"@) == 1);
}

proof fn lemma_post_norm(l: Seq<char>, bias: bool)
    ensures
        list_fits(flat_norm(norm_names(l + ".post_attention_layernorm"@, bias)), l, 30, 40),
{
    reveal_strlit(".post_attention_layernorm");
    reveal_strlit(".weight");
    reveal_strlit(".bias");
    lemma_suffix(l, ".post_attention_layernorm"@, ".weight"@);
    lemma_suffix(l, ".post_attention_layernorm"@, ".bias"@);
    let list: Seq<RequestModel> = flat_norm(norm_names(l + ".post_attention_layernorm"@, bias));
    assert(list.len() == 2);
    assert(suffix_code(false, ".post_attention_layernorm"@ + ".weight"@) == 30);
    assert(suffix_code(false, ".post_attention_layernorm"@ + ".bias"@) == 31);
}

/// What follows the base of a layer in the names of its attention.
proof fn lemma_att_suffixes(l: Seq<char>, end: Seq<char>, matrix: bool)
    ensures
        ({
            let at = if matrix {
                10int
            } else {
                20
            };
            &&& suffix_code(matrix, (l + ".self_attn.q_proj"@ + end).skip(l.len() as int)) == at
            &&& suffix_code(matrix, (l + ".self_attn.k_proj"@ + end).skip(l.len() as int)) == at
                + 1
            &&& suffix_code(matrix, (l + ".self_attn.v_proj"@ + end).skip(l.len() as int)) == at
                + 2
            &&& suffix_code(matrix, (l + ".self_attn.o_proj"@ + end).skip(l.len() as int)) == at
                + 3
            &&& suffix_code(matrix, (l + ".self_attn.g_proj"@ + end).skip(l.len() as int)) == at
                + 4
            &&& suffix_code(matrix, (l + ".self_attn.q_norm"@ + end).skip(l.len() as int)) == at
            &&& suffix_code(matrix, (l + ".self_attn.k_norm"@ + end).skip(l.len() as int)) == at
                + 1
        }),
        name_fits(l + ".self_attn.q_proj"@ + end, l),
        name_fits(l + ".self_attn.k_proj"@ + end, l),
        name_fits(l + ".self_attn.v_proj"@ + end, l),
        name_fits(l + ".self_attn.o_proj"@ + end, l),
        name_fits(l + ".self_attn.g_proj"@ + end, l),
        name_fits(l + ".self_attn.q_norm"@ + end, l),
        name_fits(l + ".self_attn.k_norm"@ + end, l),
{
    reveal_strlit(".self_attn.q_proj");
    reveal_strlit(".self_attn.k_proj");
    reveal_strlit(".self_attn.v_proj");
    reveal_strlit(".self_attn.o_proj");
    reveal_strlit(".self_attn.g_proj");
    reveal_strlit(".self_attn.q_norm");
    reveal_strlit(".self_attn.k_norm");
    lemma_suffix(l, ".self_attn.q_proj"@, end);
    lemma_suffix(l, ".self_attn.k_proj"@, end);
    lemma_suffix(l, ".self_attn.v_proj"@, end);
    lemma_suffix(l, ".self_attn.o_proj"@, end);
    lemma_suffix(l, ".self_attn.g_proj"@, end);
    lemma_suffix(l, ".self_attn.q_norm"@, end);
    lemma_suffix(l, ".self_attn.k_norm"@, end);
}

proof fn lemma_att(l: Seq<char>, custom: CustomInfo, quant: Quant)
    ensures
        list_fits(flat_att(att_names(l, custom, quant)), l, 10, 30),
{
    let att = att_names(l, custom, quant);
    lemma_att_suffixes(l, ".weight"@, true);
    lemma_att_suffixes(l, ".weight"@, false);
    lemma_att_suffixes(l, ".bias"@, false);
    let a: Seq<RequestModel> = flat_projections(att);
    assert(list_fits(a, l, 10, 20));
    let b: Seq<RequestModel> = if custom.has_qk_norm {
        flat_norm_option(att.q_norm) + flat_norm_option(att.k_norm)
    } else {
        seq![
            Slot::Vector(att.q_bias->Some_0),
            Slot::Vector(att.k_bias->Some_0),
            Slot::Vector(att.v_bias->Some_0),
            Slot::Vector(att.o_bias->Some_0),
            Slot::Vector(att.g_bias->Some_0),
        ]
    };
    if custom.has_qk_norm {
        assert(b =~= seq![
            Slot::Vector(att.q_norm->Some_0.w),
            Slot::Vector(VectorName::Zeros),
            Slot::Vector(att.k_norm->Some_0.w),
            Slot::Vector(VectorName::Zeros),
        ]);
    }
    assert(list_fits(b, l, 20, 30));
    lemma_join(a, b, l, 10, 20, 30);
    assert(flat_att(att) =~= a + b);
}

proof fn lemma_ffn(l: Seq<char>, custom: CustomInfo, quant: Quant)
    ensures
        list_fits(flat_ffn(ffn_names(l, custom, quant)), l, 40, 50),
{
    reveal_strlit(".mlp.gate_proj");
    reveal_strlit(".mlp.up_proj");
    reveal_strlit(".mlp.down_proj");
    reveal_strlit(".mlp.c_fc");
    reveal_strlit(".mlp.c_proj");
    reveal_strlit(".weight");
    reveal_strlit(".bias");
    lemma_suffix(l, ".mlp.gate_proj"@, ".weight"@);
    lemma_suffix(l, ".mlp.up_proj"@, ".weight"@);
    lemma_suffix(l, ".mlp.down_proj"@, ".weight"@);
    lemma_suffix(l, ".mlp.c_fc"@, ".weight"@);
    lemma_suffix(l, ".mlp.c_proj"@, ".weight"@);
    lemma_suffix(l, ".mlp.c_fc"@, ".bias"@);
    lemma_suffix(l, ".mlp.c_proj"@, ".bias"@);
    assert(suffix_code(true, ".mlp.gate_proj"@ + ".weight"@) == 40);
    assert(suffix_code(true, ".mlp.up_proj"@ + ".weight"@) == 41);
    assert(suffix_code(true, ".mlp.down_proj"@ + ".weight"@) == 42);
    assert(suffix_code(true, ".mlp.c_fc"@ + ".weight"@) == 43);
    assert(suffix_code(false, ".mlp.c_fc"@ + ".bias"@) == 44);
    assert(suffix_code(true, ".mlp.c_proj"@ + ".weight"@) == 45);
    assert(suffix_code(false, ".mlp.c_proj"@ + ".bias"@) == 46);
    let list: Seq<RequestModel> = flat_ffn(ffn_names(l, custom, quant));
    if custom.gated_ffn {
        assert(list.len() == 3);
    } else if use_bias(custom) {
        assert(list.len() == 4);
        assert(list[1] == Slot::<VectorName, MatrixName, Seq<char>>::Vector(
            VectorName::File(l + ".mlp.c_fc"@ + ".bias"@),
        ));
    } else {
        assert(list.len() == 2);
    }
    assert(list_fits(list, l, 40, 50));
}

proof fn lemma_layer(layer: usize, custom: CustomInfo, quant: Quant)
    ensures
        list_fits(layer_list(layer, custom, quant), layer_base(layer), 0, 50),
{
    let l = layer_base(layer);
    let names = layer_names(layer, custom, quant);
    let bias = use_bias(custom);
    let a: Seq<RequestModel> = flat_norm(names.input_ln);
    let b: Seq<RequestModel> = flat_att(names.att);
    let c: Seq<RequestModel> = flat_norm(names.post_att_ln);
    let d: Seq<RequestModel> = flat_ffn(names.ffn);
    lemma_input_norm(l, bias);
    lemma_att(l, custom, quant);
    lemma_post_norm(l, bias);
    lemma_ffn(l, custom, quant);
    lemma_join(a, b, l, 0, 10, 30);
    lemma_join(a + b, c, l, 0, 30, 40);
    lemma_join(a + b + c, d, l, 0, 40, 50);
}

/// The tensors of a layer are asked for once each, by names that say which layer it is.
pub proof fn layer_asks_once(layer: usize, custom: CustomInfo, quant: Quant)
    ensures
        distinct_keys(layer_list(layer, custom, quant)),
        forall|i: int|
            0 <= i < layer_list(layer, custom, quant).len() ==> (key_of(
                #[trigger] layer_list(layer, custom, quant)[i],
            ) matches Some(key) ==> key_layer(key) == Some(layer)),
{
    let list = layer_list(layer, custom, quant);
    let l = layer_base(layer);
    lemma_layer(layer, custom, quant);
    assert forall|i: int| 0 <= i < list.len() implies (key_of(#[trigger] list[i]) matches Some(key)
        ==> key_layer(key) == Some(layer)) by {
        if let Some(key) = key_of(list[i]) {
            assert(key_fits(key, l, 0, 50));
            match key {
                Key::Vector(name) => lemma_reads_back(layer, name),
                Key::Matrix(name) => lemma_reads_back(layer, name),
                Key::Embed => {},
            }
        }
    }
}

proof fn lemma_reads_back(layer: usize, name: Seq<char>)
    requires
        name_fits(name, layer_base(layer)),
    ensures
        named_layer(name) == Some(layer),
{
    let l = layer_base(layer);
    let rest = name.skip(l.len() as int + 1);
    layer_name_reads_back(layer, rest);
    assert(name =~= l + seq!['.'] + rest);
}

/// The tensors that no layer has are asked for once each, by names that mention no layer.
pub proof fn ends_ask_once(custom: CustomInfo)
    ensures
        distinct_keys(end_list(custom)),
        forall|i: int|
            0 <= i < end_list(custom).len() ==> (key_of(#[trigger] end_list(custom)[i]) matches Some(
                key,
            ) ==> key_layer(key) is None),
{
    reveal_strlit("model.norm");
    reveal_strlit(".weight");
    reveal_strlit(".bias");
    reveal_strlit("lm_head.weight");
    reveal_strlit("model.layers.");
    let list = end_list(custom);
    let w = "model.norm"@ + ".weight"@;
    let b = "model.norm"@ + ".bias"@;
    assert(list.len() == 4);
    assert(w.len() != b.len());
    let prefix = "model.layers."@;
    assert(w[6] == 'n' && b[6] == 'n' && prefix[6] == 'l');
    assert(!begins_with(w, prefix)) by {
        assert(w.take(prefix.len() as int)[6] == w[6]);
    }
    assert(!begins_with(b, prefix)) by {
        assert(b.take(prefix.len() as int)[6] == b[6]);
    }
    assert(!begins_with("lm_head.weight"@, prefix)) by {
        assert("lm_head.weight"@.take(prefix.len() as int)[0] == 'l');
    }
    let norm = norm_names("model.norm"@, use_bias(custom));
    assert(list[0] == Slot::<VectorName, MatrixName, Seq<char>>::Embed(
        "model.embed_tokens.weight"@,
    ));
    assert(list[1] == Slot::<VectorName, MatrixName, Seq<char>>::Vector(norm.w));
    assert(list[2] == Slot::<VectorName, MatrixName, Seq<char>>::Vector(norm.b));
    assert(list[3] == Slot::<VectorName, MatrixName, Seq<char>>::Matrix(
        MatrixName::Padded("lm_head.weight"@),
    ));
}

} // verus!
