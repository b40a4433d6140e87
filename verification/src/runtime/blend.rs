//! Which tensors the blend patterns of LoRAs select.

use vstd::prelude::*;

use super::assembly::{
    att_names, bias_name, end_list, ffn_names, flat_att, flat_ffn, flat_norm, flat_norm_option,
    flat_option, flat_projections, layer_base, layer_list, layer_names, matrix_name, norm_names,
    use_bias, MatrixName, RequestModel, Slot, VectorName,
};
use super::brumby::CustomInfo;
use super::lora::{full_blend, last_match, later_pattern_wins, ONE_BITS};
use super::model::Quant;
use super::naming::{key_of, Key};
use crate::pattern::{
    any_pattern, block_matrix, is_end_matrix, is_layer_matrix, is_layer_prefix, is_model_kind,
    is_more_than_line_feeds, layer_matrices_pattern, layer_pattern, layer_text, matrices_of,
    matrices_pattern, model_matrix, names_layer, names_layer_matrix, names_matrix, occurs, selects,
};
use crate::text::{all_digits, begins_with, decimal, decimal_round_trip, is_digit};

verus! {

/// Digits that lead a text and end there are the same, however they are found.
proof fn lemma_leading_digits(s: Seq<char>, x: Seq<char>, y: Seq<char>)
    requires
        all_digits(x),
        all_digits(y),
        x.len() < s.len(),
        y.len() < s.len(),
        forall|k: int| 0 <= k < x.len() ==> s[k] == #[trigger] x[k],
        forall|k: int| 0 <= k < y.len() ==> s[k] == #[trigger] y[k],
        !is_digit(s[x.len() as int]),
        !is_digit(s[y.len() as int]),
    ensures
        x == y,
{
    if x.len() < y.len() {
        assert(is_digit(y[x.len() as int]));
    }
    if y.len() < x.len() {
        assert(is_digit(x[y.len() as int]));
    }
    assert forall|k: int| 0 <= k < x.len() implies x[k] == y[k] by {
        assert(s[k] == x[k]);
    }
    assert(x =~= y);
}

/// A layer can be read from what its pattern has before the index and after it.
proof fn lemma_same_layer(
    prefix: Seq<char>,
    a: usize,
    b: usize,
    rest_a: Seq<char>,
    rest_b: Seq<char>,
)
    requires
        rest_a.len() > 0,
        rest_b.len() > 0,
        !is_digit(rest_a[0]),
        !is_digit(rest_b[0]),
        prefix + decimal(a as nat) + rest_a == prefix + decimal(b as nat) + rest_b,
    ensures
        a == b,
{
    let x = decimal(a as nat);
    let y = decimal(b as nat);
    let u = prefix + x + rest_a;
    let v = prefix + y + rest_b;
    let s = u.skip(prefix.len() as int);
    decimal_round_trip(a as nat);
    decimal_round_trip(b as nat);
    assert forall|k: int| 0 <= k < x.len() implies s[k] == #[trigger] x[k] by {
        assert(s[k] == u[k + prefix.len()]);
    }
    assert forall|k: int| 0 <= k < y.len() implies s[k] == #[trigger] y[k] by {
        assert(s[k] == v[k + prefix.len()]);
    }
    assert(s[x.len() as int] == u[(prefix.len() + x.len()) as int]);
    assert(s[y.len() as int] == v[(prefix.len() + y.len()) as int]);
    lemma_leading_digits(s, x, y);
}

/// What the matrix patterns of layers have after the first index.
spec fn after_index(index: Seq<char>) -> Seq<char> {
    "\\.((att|ffn)\\.(key|value|receptance|gate|output)\\.weight|att\\.(time_mix_w|time_decay_w|w|a|g|v)(1|2))"@
        + "|model\\.layers\\."@ + index
        + "\\.(self_attn\\.(q|k|v|o|g)_proj|mlp\\.(gate_proj|up_proj|down_proj|c_fc|c_proj))\\.weight"@
}

proof fn lemma_matrices_of(index: Seq<char>)
    ensures
        matrices_of(index) == "blocks\\."@ + index + after_index(index),
        after_index(index).len() > 0,
        after_index(index)[0] == '\\',
        "blocks\\."@.len() == 8,
        "blocks\\."@[0] == 'b',
{
    reveal_strlit("blocks\\.");
    reveal_strlit(
        "\\.((att|ffn)\\.(key|value|receptance|gate|output)\\.weight|att\\.(time_mix_w|time_decay_w|w|a|g|v)(1|2))",
    );
    assert(matrices_of(index) =~= "blocks\\."@ + index + after_index(index));
}

/// What each of the blend patterns selects.
pub proof fn blend_patterns_select(layer: usize, name: Seq<char>)
    ensures
        selects(any_pattern(), name) == is_more_than_line_feeds(name),
        selects(matrices_pattern(), name) == names_matrix(name),
        selects(layer_pattern(layer), name) == names_layer(name, layer),
        selects(layer_matrices_pattern(layer), name) == names_layer_matrix(
            name,
            decimal(layer as nat),
        ),
{
    reveal_strlit(".+");
    reveal_strlit("[0-9]+");
    reveal_strlit("(blocks|model\\.layers)\\.");
    reveal_strlit("\\.");
    lemma_matrices_of("[0-9]+"@);
    assert(matrices_pattern()[0] == 'b');
    assert(matrices_pattern()[8] == '[');
    assert forall|l: usize| (#[trigger] layer_pattern(l))[0] == '(' && layer_pattern(l).len()
        > 2 by {}
    assert forall|l: usize| (#[trigger] layer_matrices_pattern(l))[0] == 'b' && is_digit(
        layer_matrices_pattern(l)[8],
    ) by {
        lemma_matrices_of(decimal(l as nat));
        decimal_round_trip(l as nat);
        assert(is_digit(decimal(l as nat)[0]));
    }
    assert(any_pattern()[0] == '.');
    assert forall|l: usize| #[trigger] layer_pattern(l) == layer_pattern(layer) implies l
        == layer by {
        lemma_same_layer("(blocks|model\\.layers)\\."@, l, layer, "\\."@, "\\."@);
    }
    assert forall|l: usize| #[trigger]
        layer_matrices_pattern(l) == layer_matrices_pattern(layer) implies l == layer by {
        lemma_matrices_of(decimal(l as nat));
        lemma_matrices_of(decimal(layer as nat));
        lemma_same_layer(
            "blocks\\."@,
            l,
            layer,
            after_index(decimal(l as nat)),
            after_index(decimal(layer as nat)),
        );
    }
}

/// The full blend adds to the matrices with its own factor, and replaces whatever else
/// has a name.
pub proof fn full_blend_factors(alpha: u32, name: Seq<char>)
    ensures
        last_match(full_blend(alpha), name) == if names_matrix(name) {
            Some(alpha)
        } else if is_more_than_line_feeds(name) {
            Some(ONE_BITS)
        } else {
            None
        },
{
    let none = Seq::<(Seq<char>, u32)>::empty();
    blend_patterns_select(0, name);
    later_pattern_wins(none, any_pattern(), ONE_BITS, name);
    later_pattern_wins(none.push((any_pattern(), ONE_BITS)), matrices_pattern(), alpha, name);
    assert(none.push((any_pattern(), ONE_BITS)).push((matrices_pattern(), alpha)) =~= full_blend(
        alpha,
    ));
}

/// Where a text occurs, each of its characters is found.
proof fn lemma_occurs(name: Seq<char>, t: Seq<char>) -> (i: int)
    requires
        occurs(name, t),
    ensures
        0 <= i,
        i + t.len() <= name.len(),
        begins_with(name.skip(i), t),
        forall|k: int| 0 <= k < t.len() ==> name[i + k] == #[trigger] t[k],
{
    let i = choose|i: int| 0 <= i <= name.len() && begins_with(#[trigger] name.skip(i), t);
    let tail = name.skip(i);
    assert forall|k: int| 0 <= k < t.len() implies name[i + k] == #[trigger] t[k] by {
        assert(tail.take(t.len() as int)[k] == tail[k]);
    }
    i
}

/// A text occurs where its characters are found.
proof fn lemma_occurs_at(name: Seq<char>, t: Seq<char>, i: int)
    requires
        0 <= i,
        i + t.len() <= name.len(),
        forall|k: int| 0 <= k < t.len() ==> name[i + k] == #[trigger] t[k],
    ensures
        occurs(name, t),
        begins_with(name.skip(i), t),
{
    assert(name.skip(i).take(t.len() as int) =~= t);
}

/// The names of matrices are found to be such.
pub proof fn matrix_names_are_selected(layer: usize, t: Seq<char>)
    requires
        is_layer_matrix(decimal(layer as nat), t),
    ensures
        selects(matrices_pattern(), t),
        selects(layer_matrices_pattern(layer), t),
{
    let index = decimal(layer as nat);
    decimal_round_trip(layer as nat);
    lemma_occurs_at(t, t, 0);
    blend_patterns_select(layer, t);
    assert(names_layer_matrix(t, index));
}

/// The pattern of a layer selects the names of that layer, and not those of another:
/// these have their own layer at the start, and no other after it.
pub proof fn layer_pattern_is_of_one_layer(
    prefix: Seq<char>,
    a: usize,
    b: usize,
    rest: Seq<char>,
)
    requires
        is_layer_prefix(prefix),
        forall|i: int|
            0 < i <= (layer_text(prefix, b) + rest).len() ==> !begins_with(
                #[trigger] (layer_text(prefix, b) + rest).skip(i),
                "blocks."@,
            ) && !begins_with((layer_text(prefix, b) + rest).skip(i), "model.layers."@),
    ensures
        selects(layer_pattern(a), layer_text(prefix, b) + rest) <==> a == b,
{
    let name = layer_text(prefix, b) + rest;
    reveal_strlit("blocks.");
    reveal_strlit("model.layers.");
    reveal_strlit(".");
    blend_patterns_select(a, name);
    if a == b {
        lemma_occurs_at(name, layer_text(prefix, a), 0);
    }
    if occurs(name, layer_text("blocks."@, a)) {
        lemma_leading_layer(prefix, "blocks."@, a, b, rest);
    }
    if occurs(name, layer_text("model.layers."@, a)) {
        lemma_leading_layer(prefix, "model.layers."@, a, b, rest);
    }
}

proof fn lemma_leading_layer(
    prefix: Seq<char>,
    other: Seq<char>,
    a: usize,
    b: usize,
    rest: Seq<char>,
)
    requires
        is_layer_prefix(prefix),
        is_layer_prefix(other),
        forall|i: int|
            0 < i <= (layer_text(prefix, b) + rest).len() ==> !begins_with(
                #[trigger] (layer_text(prefix, b) + rest).skip(i),
                other,
            ),
        occurs(layer_text(prefix, b) + rest, layer_text(other, a)),
    ensures
        a == b,
{
    let name = layer_text(prefix, b) + rest;
    let t = layer_text(other, a);
    reveal_strlit("blocks.");
    reveal_strlit("model.layers.");
    reveal_strlit(".");
    let i = lemma_occurs(name, t);
    assert forall|k: int| 0 <= k < other.len() implies name[i + k] == #[trigger] other[k] by {
        assert(t[k] == other[k]);
    }
    lemma_occurs_at(name, other, i);
    assert(i == 0);
    assert(name[0] == t[0]);
    assert(other == prefix);
    let x = decimal(a as nat);
    let y = decimal(b as nat);
    let n = prefix.len() as int;
    let s = name.skip(n);
    decimal_round_trip(a as nat);
    decimal_round_trip(b as nat);
    assert forall|k: int| 0 <= k < x.len() implies s[k] == #[trigger] x[k] by {
        assert(t[n + k] == x[k]);
        assert(name[n + k] == t[n + k]);
    }
    assert forall|k: int| 0 <= k < y.len() implies s[k] == #[trigger] y[k] by {
        assert(name[n + k] == y[k]);
    }
    assert(t[n + x.len()] == '.');
    assert(s[x.len() as int] == name[n + x.len()]);
    assert(s[y.len() as int] == name[n + y.len()]);
    lemma_leading_digits(s, x, y);
}

/// A character is not in a text.
spec fn without(s: Seq<char>, c: char) -> bool {
    forall|k: int| 0 <= k < s.len() ==> #[trigger] s[k] != c
}

/// What follows the stem of a vector's name.
spec fn vector_end(weight: bool) -> Seq<char> {
    if weight {
        ".weight"@
    } else {
        ".bias"@
    }
}

/// A stem of the name of a vector: no matrix has a name with such a stem.
spec fn is_vector_stem(stem: Seq<char>, weight: bool) -> bool {
    &&& stem.len() > 0
    &&& without(stem, 'w')
    &&& without(stem, 'b')
    &&& weight ==> stem.last() == 'm'
}

/// By what the name of a matrix can be told.
proof fn lemma_matrix_marks(index: Seq<char>, t: Seq<char>)
    requires
        is_layer_matrix(index, t) || is_end_matrix(t),
    ensures
        ({
            ||| t.len() >= 8 && t[t.len() - 6] == 'w' && t[t.len() - 8] != 'm'
            ||| t.len() >= 2 && t[0] == 'b' && t[1] == 'l'
        }),
{
    reveal_strlit(".weight");
    if is_end_matrix(t) {
        reveal_strlit("emb.weight");
        reveal_strlit("embed_tokens.weight");
        reveal_strlit("head.weight");
    } else if exists|kind: Seq<char>|
        is_model_kind(kind) && t == #[trigger] model_matrix(index, kind) {
        let kind = choose|kind: Seq<char>|
            is_model_kind(kind) && t == #[trigger] model_matrix(index, kind);
        lemma_model_kind(kind);
        let n = kind.len() as int;
        assert(t[t.len() - 6] == ".weight"@[1]);
        assert(t[t.len() - 8] == kind[n - 1]);
    } else {
        reveal_strlit("blocks.");
    }
}

proof fn lemma_model_kind(kind: Seq<char>)
    requires
        is_model_kind(kind),
    ensures
        kind.len() > 0,
        kind[0] == '.',
        kind.last() != 'm',
        is_clear(kind),
{
    reveal_strlit(".self_attn.q_proj");
    reveal_strlit(".self_attn.k_proj");
    reveal_strlit(".self_attn.v_proj");
    reveal_strlit(".self_attn.o_proj");
    reveal_strlit(".self_attn.g_proj");
    reveal_strlit(".mlp.gate_proj");
    reveal_strlit(".mlp.up_proj");
    reveal_strlit(".mlp.down_proj");
    reveal_strlit(".mlp.c_fc");
    reveal_strlit(".mlp.c_proj");
}

/// No prefix of a layer begins in a text.
spec fn is_clear(s: Seq<char>) -> bool {
    forall|k: int|
        0 <= k < s.len() - 1 ==> !(#[trigger] s[k] == 'b' && s[k + 1] == 'l') && !(s[k] == 'm'
            && s[k + 1] == 'o')
}

/// The name of a matrix does not occur in that of a vector.
proof fn lemma_not_in_vector(stem: Seq<char>, weight: bool, index: Seq<char>, t: Seq<char>)
    requires
        is_vector_stem(stem, weight),
        is_layer_matrix(index, t) || is_end_matrix(t),
    ensures
        !occurs(stem + vector_end(weight), t),
{
    let name = stem + vector_end(weight);
    let n = stem.len() as int;
    reveal_strlit(".weight");
    reveal_strlit(".bias");
    if occurs(name, t) {
        lemma_matrix_marks(index, t);
        let i = lemma_occurs(name, t);
        if t.len() >= 2 && t[0] == 'b' && t[1] == 'l' {
            assert(name[i] == t[0]);
            assert(name[i + 1] == t[1]);
            if i < n {
                assert(stem[i] == 'b');
            } else {
                assert(name[i] == vector_end(weight)[i - n]);
                assert(name[i + 1] == vector_end(weight)[i + 1 - n]);
            }
        } else {
            let p = i + t.len() - 6;
            assert(name[p] == t[t.len() - 6]);
            assert(name[p - 2] == t[t.len() - 8]);
            if p < n {
                assert(stem[p] == 'w');
            } else {
                assert(name[p] == vector_end(weight)[p - n]);
                assert(p == n + 1);
                assert(name[p - 2] == stem.last());
            }
        }
    }
}

/// The name of a vector mentions no matrix.
proof fn lemma_vector_is_no_matrix(stem: Seq<char>, weight: bool)
    requires
        is_vector_stem(stem, weight),
    ensures
        !names_matrix(stem + vector_end(weight)),
        forall|index: Seq<char>| !names_layer_matrix(stem + vector_end(weight), index),
        is_more_than_line_feeds(stem + vector_end(weight)),
{
    let name = stem + vector_end(weight);
    reveal_strlit(".weight");
    reveal_strlit(".bias");
    assert(name[stem.len() as int] == '.');
    assert forall|index: Seq<char>| !names_layer_matrix(name, index) by {
        if names_layer_matrix(name, index) {
            let t = choose|t: Seq<char>| is_layer_matrix(index, t) && #[trigger] occurs(name, t);
            lemma_not_in_vector(stem, weight, index, t);
        }
    }
    assert forall|t: Seq<char>| is_end_matrix(t) implies !occurs(name, t) by {
        lemma_not_in_vector(stem, weight, Seq::empty(), t);
    }
}

/// The stem of the names of a layer with this base is that of a vector.
spec fn is_layer_stem(stem: Seq<char>, weight: bool) -> bool {
    &&& is_vector_stem(stem, weight)
    &&& stem[0] == '.'
    &&& is_clear(stem)
}

/// The name that is asked for is that of a matrix or of a vector of the layer with this
/// base.
spec fn is_told(request: RequestModel, l: Seq<char>) -> bool {
    match key_of(request) {
        Some(Key::Matrix(name)) => exists|kind: Seq<char>| #[trigger]
            is_model_kind(kind) && name == l + kind + ".weight"@,
        Some(Key::Vector(name)) => exists|stem: Seq<char>, weight: bool| #[trigger]
            is_layer_stem(stem, weight) && name == l + stem + vector_end(weight),
        Some(Key::Embed) => false,
        None => true,
    }
}

spec fn all_told(requests: Seq<RequestModel>, l: Seq<char>) -> bool {
    forall|i: int| 0 <= i < requests.len() ==> is_told(#[trigger] requests[i], l)
}

proof fn lemma_told_join(a: Seq<RequestModel>, b: Seq<RequestModel>, l: Seq<char>)
    requires
        all_told(a, l),
        all_told(b, l),
    ensures
        all_told(a + b, l),
{
    let c = a + b;
    assert forall|i: int| 0 <= i < c.len() implies is_told(#[trigger] c[i], l) by {
        if i < a.len() {
            assert(c[i] == a[i]);
        } else {
            assert(c[i] == b[i - a.len()]);
        }
    }
}

proof fn lemma_norm_stems()
    ensures
        is_layer_stem(".input_layernorm"@, true),
        is_layer_stem(".input_layernorm"@, false),
        is_layer_stem(".post_attention_layernorm"@, true),
        is_layer_stem(".post_attention_layernorm"@, false),
        is_layer_stem(".self_attn.q_norm"@, true),
        is_layer_stem(".self_attn.q_norm"@, false),
        is_layer_stem(".self_attn.k_norm"@, true),
        is_layer_stem(".self_attn.k_norm"@, false),
{
    reveal_strlit(".input_layernorm");
    reveal_strlit(".post_attention_layernorm");
    reveal_strlit(".self_attn.q_norm");
    reveal_strlit(".self_attn.k_norm");
}

proof fn lemma_bias_stems()
    ensures
        is_layer_stem(".self_attn.q_proj"@, false),
        is_layer_stem(".self_attn.k_proj"@, false),
        is_layer_stem(".self_attn.v_proj"@, false),
        is_layer_stem(".self_attn.o_proj"@, false),
        is_layer_stem(".self_attn.g_proj"@, false),
        is_layer_stem(".mlp.c_fc"@, false),
        is_layer_stem(".mlp.c_proj"@, false),
{
    reveal_strlit(".self_attn.q_proj");
    reveal_strlit(".self_attn.k_proj");
    reveal_strlit(".self_attn.v_proj");
    reveal_strlit(".self_attn.o_proj");
    reveal_strlit(".self_attn.g_proj");
    reveal_strlit(".mlp.c_fc");
    reveal_strlit(".mlp.c_proj");
}

proof fn lemma_told_norm(l: Seq<char>, stem: Seq<char>, bias: bool)
    requires
        is_layer_stem(stem, true),
        is_layer_stem(stem, false),
    ensures
        all_told(flat_norm(norm_names(l + stem, bias)), l),
{
    let list: Seq<RequestModel> = flat_norm(norm_names(l + stem, bias));
    assert(l + stem + vector_end(true) == l + stem + ".weight"@);
    assert(l + stem + vector_end(false) == l + stem + ".bias"@);
    assert(list.len() == 2);
    assert(is_told(list[0], l));
    assert(is_told(list[1], l));
}

proof fn lemma_told_matrix(l: Seq<char>, kind: Seq<char>, quant: Quant)
    requires
        is_model_kind(kind),
    ensures
        is_told(Slot::Matrix(matrix_name(l + kind, quant)), l),
{
}

proof fn lemma_told_bias(l: Seq<char>, stem: Seq<char>, bias: bool)
    requires
        is_layer_stem(stem, false),
    ensures
        all_told(flat_option(bias_name(l + stem, bias)), l),
{
    let list: Seq<RequestModel> = flat_option(bias_name(l + stem, bias));
    assert(l + stem + vector_end(false) == l + stem + ".bias"@);
    if bias {
        assert(is_told(list[0], l));
    }
}

proof fn lemma_told_att(l: Seq<char>, custom: CustomInfo, quant: Quant)
    ensures
        all_told(flat_att(att_names(l, custom, quant)), l),
{
    let att = att_names(l, custom, quant);
    let bias = use_bias(custom);
    lemma_norm_stems();
    lemma_bias_stems();
    lemma_told_matrix(l, ".self_attn.q_proj"@, quant);
    lemma_told_matrix(l, ".self_attn.k_proj"@, quant);
    lemma_told_matrix(l, ".self_attn.v_proj"@, quant);
    lemma_told_matrix(l, ".self_attn.o_proj"@, quant);
    lemma_told_matrix(l, ".self_attn.g_proj"@, quant);
    let list: Seq<RequestModel> = flat_projections(att);
    assert(all_told(list, l));
    lemma_told_norm(l, ".self_attn.q_norm"@, false);
    lemma_told_norm(l, ".self_attn.k_norm"@, false);
    let list_q = list + flat_norm_option(att.q_norm);
    lemma_told_join(list, flat_norm_option(att.q_norm), l);
    let list_k = list_q + flat_norm_option(att.k_norm);
    lemma_told_join(list_q, flat_norm_option(att.k_norm), l);
    lemma_told_bias(l, ".self_attn.q_proj"@, bias);
    lemma_told_bias(l, ".self_attn.k_proj"@, bias);
    lemma_told_bias(l, ".self_attn.v_proj"@, bias);
    lemma_told_bias(l, ".self_attn.o_proj"@, bias);
    lemma_told_bias(l, ".self_attn.g_proj"@, bias);
    let q = list_k + flat_option(att.q_bias);
    lemma_told_join(list_k, flat_option(att.q_bias), l);
    let k = q + flat_option(att.k_bias);
    lemma_told_join(q, flat_option(att.k_bias), l);
    let v = k + flat_option(att.v_bias);
    lemma_told_join(k, flat_option(att.v_bias), l);
    let o = v + flat_option(att.o_bias);
    lemma_told_join(v, flat_option(att.o_bias), l);
    lemma_told_join(o, flat_option(att.g_bias), l);
}

proof fn lemma_told_ffn(l: Seq<char>, custom: CustomInfo, quant: Quant)
    ensures
        all_told(flat_ffn(ffn_names(l, custom, quant)), l),
{
    let bias = use_bias(custom);
    lemma_bias_stems();
    if custom.gated_ffn {
        lemma_told_matrix(l, ".mlp.gate_proj"@, quant);
        lemma_told_matrix(l, ".mlp.up_proj"@, quant);
        lemma_told_matrix(l, ".mlp.down_proj"@, quant);
    } else {
        lemma_told_matrix(l, ".mlp.c_fc"@, quant);
        lemma_told_matrix(l, ".mlp.c_proj"@, quant);
        lemma_told_bias(l, ".mlp.c_fc"@, bias);
        lemma_told_bias(l, ".mlp.c_proj"@, bias);
        let c_fc: Seq<RequestModel> = seq![Slot::Matrix(matrix_name(l + ".mlp.c_fc"@, quant))];
        let c_proj: Seq<RequestModel> = seq![Slot::Matrix(matrix_name(l + ".mlp.c_proj"@, quant))];
        let c_fc_bias: Seq<RequestModel> = flat_option(bias_name(l + ".mlp.c_fc"@, bias));
        let c_proj_bias: Seq<RequestModel> = flat_option(bias_name(l + ".mlp.c_proj"@, bias));
        lemma_told_join(c_fc, c_fc_bias, l);
        lemma_told_join(c_fc + c_fc_bias, c_proj, l);
        lemma_told_join(c_fc + c_fc_bias + c_proj, c_proj_bias, l);
    }
}

proof fn lemma_told_layer(layer: usize, custom: CustomInfo, quant: Quant)
    ensures
        all_told(layer_list(layer, custom, quant), layer_base(layer)),
{
    let l = layer_base(layer);
    let names = layer_names(layer, custom, quant);
    lemma_norm_stems();
    lemma_told_norm(l, ".input_layernorm"@, use_bias(custom));
    lemma_told_norm(l, ".post_attention_layernorm"@, use_bias(custom));
    lemma_told_att(l, custom, quant);
    lemma_told_ffn(l, custom, quant);
    let input: Seq<RequestModel> = flat_norm(names.input_ln);
    let att: Seq<RequestModel> = flat_att(names.att);
    let post: Seq<RequestModel> = flat_norm(names.post_att_ln);
    let ffn: Seq<RequestModel> = flat_ffn(names.ffn);
    lemma_told_join(input, att, l);
    lemma_told_join(input + att, post, l);
    lemma_told_join(input + att + post, ffn, l);
}

proof fn lemma_base(layer: usize)
    ensures
        without(layer_base(layer), 'w'),
        without(layer_base(layer), 'b'),
{
    let l = layer_base(layer);
    let d = decimal(layer as nat);
    reveal_strlit("model.layers.");
    decimal_round_trip(layer as nat);
    assert forall|k: int| 0 <= k < l.len() implies #[trigger] l[k] != 'w' && l[k] != 'b' by {
        if k >= 13 {
            assert(l[k] == d[k - 13]);
            assert(is_digit(d[k - 13]));
        }
    }
}

/// The name of a vector of a layer mentions no matrix.
proof fn lemma_layer_vector(layer: usize, stem: Seq<char>, weight: bool)
    requires
        is_layer_stem(stem, weight),
    ensures
        !names_matrix(layer_base(layer) + stem + vector_end(weight)),
        forall|index: Seq<char>|
            !names_layer_matrix(layer_base(layer) + stem + vector_end(weight), index),
        is_more_than_line_feeds(layer_base(layer) + stem + vector_end(weight)),
{
    let l = layer_base(layer);
    let whole = l + stem;
    lemma_base(layer);
    assert forall|k: int| 0 <= k < whole.len() implies #[trigger] whole[k] != 'w' && whole[k]
        != 'b' by {
        if k >= l.len() {
            assert(whole[k] == stem[k - l.len()]);
        } else {
            assert(whole[k] == l[k]);
        }
    }
    assert(whole.last() == stem.last());
    lemma_vector_is_no_matrix(whole, weight);
}

/// The full blend adds to every matrix of a layer with its own factor, and replaces every
/// vector.
pub proof fn full_blend_serves_layer(
    alpha: u32,
    layer: usize,
    custom: CustomInfo,
    quant: Quant,
    i: int,
)
    requires
        0 <= i < layer_list(layer, custom, quant).len(),
    ensures
        match key_of(layer_list(layer, custom, quant)[i]) {
            Some(Key::Matrix(name)) => last_match(full_blend(alpha), name) == Some(alpha),
            Some(Key::Vector(name)) => last_match(full_blend(alpha), name) == Some(ONE_BITS),
            Some(Key::Embed) => false,
            None => true,
        },
{
    let l = layer_base(layer);
    let request = layer_list(layer, custom, quant)[i];
    lemma_told_layer(layer, custom, quant);
    assert(is_told(request, l));
    match key_of(request) {
        Some(Key::Matrix(name)) => {
            let kind = choose|kind: Seq<char>| #[trigger]
                is_model_kind(kind) && name == l + kind + ".weight"@;
            assert(name == model_matrix(decimal(layer as nat), kind));
            matrix_names_are_selected(layer, name);
            blend_patterns_select(layer, name);
            full_blend_factors(alpha, name);
        },
        Some(Key::Vector(name)) => {
            let (stem, weight) = choose|stem: Seq<char>, weight: bool| #[trigger]
                is_layer_stem(stem, weight) && name == l + stem + vector_end(weight);
            lemma_layer_vector(layer, stem, weight);
            full_blend_factors(alpha, name);
        },
        _ => {},
    }
}

/// The full blend adds to the embedding and to the head with its own factor, and replaces
/// the norm of the head.
pub proof fn full_blend_serves_ends(alpha: u32, custom: CustomInfo, i: int)
    requires
        0 <= i < end_list(custom).len(),
    ensures
        match end_list(custom)[i] {
            Slot::Matrix(MatrixName::Padded(name)) | Slot::Matrix(MatrixName::Stored(name, _)) => {
                last_match(full_blend(alpha), name) == Some(alpha)
            },
            Slot::Vector(VectorName::File(name)) => last_match(full_blend(alpha), name) == Some(
                ONE_BITS,
            ),
            Slot::Vector(VectorName::Zeros) => true,
            Slot::Embed(name) => last_match(full_blend(alpha), name) == Some(alpha),
        },
{
    reveal_strlit("model.norm");
    reveal_strlit("model.embed_tokens.weight");
    reveal_strlit("embed_tokens.weight");
    reveal_strlit("lm_head.weight");
    reveal_strlit("head.weight");
    lemma_occurs_at("model.embed_tokens.weight"@, "embed_tokens.weight"@, 6);
    lemma_occurs_at("lm_head.weight"@, "head.weight"@, 3);
    full_blend_factors(alpha, "model.embed_tokens.weight"@);
    full_blend_factors(alpha, "lm_head.weight"@);
    lemma_vector_is_no_matrix("model.norm"@, true);
    lemma_vector_is_no_matrix("model.norm"@, false);
    full_blend_factors(alpha, "model.norm"@ + ".weight"@);
    full_blend_factors(alpha, "model.norm"@ + ".bias"@);
}

/// What follows the base of a layer does not make a name one of another layer.
proof fn lemma_name_of_one_layer(a: usize, b: usize, rest: Seq<char>)
    requires
        rest.len() > 0,
        rest[0] == '.',
        is_clear(rest),
    ensures
        selects(layer_pattern(a), layer_base(b) + rest) <==> a == b,
{
    let prefix = "model.layers."@;
    let d = decimal(b as nat);
    let name = layer_base(b) + rest;
    reveal_strlit("model.layers.");
    reveal_strlit("blocks.");
    reveal_strlit(".");
    decimal_round_trip(b as nat);
    assert(name =~= layer_text(prefix, b) + rest.skip(1));
    assert forall|i: int| 0 < i <= name.len() implies !begins_with(
        #[trigger] name.skip(i),
        "blocks."@,
    ) && !begins_with(name.skip(i), prefix) by {
        let tail = name.skip(i);
        if begins_with(tail, "blocks."@) || begins_with(tail, prefix) {
            assert(tail[0] == tail.take(if begins_with(tail, prefix) { 13 } else { 7 })[0]);
            assert(tail[1] == tail.take(if begins_with(tail, prefix) { 13 } else { 7 })[1]);
            assert(name[i] == tail[0] && name[i + 1] == tail[1]);
            let n = 13 + d.len();
            if i < 13 {
                assert(name[i] == prefix[i]);
            } else if i < n {
                assert(name[i] == d[i - 13]);
                assert(is_digit(d[i - 13]));
            } else {
                assert(name[i] == rest[i - n]);
                assert(name[i + 1] == rest[i - n + 1]);
            }
        }
    }
    layer_pattern_is_of_one_layer(prefix, a, b, rest.skip(1));
}

/// The patterns of a layer select what that layer asks for and nothing that another does:
/// one all of it, the other its matrices.
pub proof fn layer_blends_serve_one_layer(
    a: usize,
    b: usize,
    custom: CustomInfo,
    quant: Quant,
    i: int,
)
    requires
        0 <= i < layer_list(b, custom, quant).len(),
    ensures
        match key_of(layer_list(b, custom, quant)[i]) {
            Some(Key::Matrix(name)) => {
                &&& selects(layer_pattern(a), name) <==> a == b
                &&& selects(layer_matrices_pattern(a), name) <==> a == b
            },
            Some(Key::Vector(name)) => {
                &&& selects(layer_pattern(a), name) <==> a == b
                &&& !selects(layer_matrices_pattern(a), name)
            },
            Some(Key::Embed) => false,
            None => true,
        },
{
    let l = layer_base(b);
    let request = layer_list(b, custom, quant)[i];
    lemma_told_layer(b, custom, quant);
    assert(is_told(request, l));
    reveal_strlit(".weight");
    reveal_strlit(".bias");
    match key_of(request) {
        Some(Key::Matrix(name)) => {
            let kind = choose|kind: Seq<char>| #[trigger]
                is_model_kind(kind) && name == l + kind + ".weight"@;
            lemma_model_kind(kind);
            lemma_clear_join(kind, ".weight"@);
            assert(name =~= l + (kind + ".weight"@));
            lemma_name_of_one_layer(a, b, kind + ".weight"@);
            blend_patterns_select(a, name);
            if a == b {
                assert(name == model_matrix(decimal(b as nat), kind));
                matrix_names_are_selected(b, name);
            }
            if names_layer_matrix(name, decimal(a as nat)) {
                lemma_layer_of_matrix(name, a);
            }
        },
        Some(Key::Vector(name)) => {
            let (stem, weight) = choose|stem: Seq<char>, weight: bool| #[trigger]
                is_layer_stem(stem, weight) && name == l + stem + vector_end(weight);
            lemma_layer_vector(b, stem, weight);
            lemma_clear_join(stem, vector_end(weight));
            assert(name =~= l + (stem + vector_end(weight)));
            lemma_name_of_one_layer(a, b, stem + vector_end(weight));
            blend_patterns_select(a, name);
        },
        _ => {},
    }
}

proof fn lemma_clear_join(s: Seq<char>, end: Seq<char>)
    requires
        is_clear(s),
        is_clear(end),
        end.len() > 0,
        end[0] == '.',
    ensures
        is_clear(s + end),
{
    let t = s + end;
    assert forall|k: int| 0 <= k < t.len() - 1 implies !(#[trigger] t[k] == 'b' && t[k + 1] == 'l')
        && !(t[k] == 'm' && t[k + 1] == 'o') by {
        if k < s.len() - 1 {
            assert(t[k] == s[k] && t[k + 1] == s[k + 1]);
        } else if k == s.len() - 1 {
            assert(t[k + 1] == end[0]);
        } else {
            assert(t[k] == end[k - s.len()] && t[k + 1] == end[k + 1 - s.len()]);
        }
    }
}

/// A name that mentions a matrix of a layer mentions the layer.
proof fn lemma_layer_of_matrix(name: Seq<char>, layer: usize)
    requires
        names_layer_matrix(name, decimal(layer as nat)),
    ensures
        names_layer(name, layer),
{
    let index = decimal(layer as nat);
    let t = choose|t: Seq<char>| is_layer_matrix(index, t) && #[trigger] occurs(name, t);
    let i = lemma_occurs(name, t);
    reveal_strlit(".");
    reveal_strlit(".att");
    reveal_strlit(".ffn");
    if exists|kind: Seq<char>| is_model_kind(kind) && t == #[trigger] model_matrix(index, kind) {
        let kind = choose|kind: Seq<char>|
            is_model_kind(kind) && t == #[trigger] model_matrix(index, kind);
        lemma_model_kind(kind);
        lemma_part_occurs(name, t, i, layer_text("model.layers."@, layer));
    } else {
        lemma_part_occurs(name, t, i, layer_text("blocks."@, layer));
    }
}

proof fn lemma_part_occurs(name: Seq<char>, t: Seq<char>, i: int, part: Seq<char>)
    requires
        0 <= i,
        i + t.len() <= name.len(),
        forall|k: int| 0 <= k < t.len() ==> name[i + k] == #[trigger] t[k],
        part.len() <= t.len(),
        forall|k: int| 0 <= k < part.len() ==> t[k] == #[trigger] part[k],
    ensures
        occurs(name, part),
{
    assert forall|k: int| 0 <= k < part.len() implies name[i + k] == #[trigger] part[k] by {
        assert(t[k] == part[k]);
    }
    lemma_occurs_at(name, part, i);
}

/// The matrices of an RWKV layer are selected by name, with all matrices and with those of
/// the layer, and so are the embedding and the head.
pub proof fn rwkv_matrices_are_selected(layer: usize)
    ensures
        ({
            let l = "blocks."@ + decimal(layer as nat);
            &&& selects(matrices_pattern(), l + ".att.key.weight"@)
            &&& selects(layer_matrices_pattern(layer), l + ".att.key.weight"@)
            &&& selects(matrices_pattern(), l + ".att.value.weight"@)
            &&& selects(layer_matrices_pattern(layer), l + ".att.value.weight"@)
            &&& selects(matrices_pattern(), l + ".att.receptance.weight"@)
            &&& selects(layer_matrices_pattern(layer), l + ".att.receptance.weight"@)
            &&& selects(matrices_pattern(), l + ".att.gate.weight"@)
            &&& selects(layer_matrices_pattern(layer), l + ".att.gate.weight"@)
            &&& selects(matrices_pattern(), l + ".att.output.weight"@)
            &&& selects(layer_matrices_pattern(layer), l + ".att.output.weight"@)
            &&& selects(matrices_pattern(), l + ".ffn.key.weight"@)
            &&& selects(layer_matrices_pattern(layer), l + ".ffn.key.weight"@)
            &&& selects(matrices_pattern(), l + ".ffn.value.weight"@)
            &&& selects(layer_matrices_pattern(layer), l + ".ffn.value.weight"@)
            &&& selects(matrices_pattern(), l + ".ffn.receptance.weight"@)
            &&& selects(layer_matrices_pattern(layer), l + ".ffn.receptance.weight"@)
        }),
        selects(matrices_pattern(), "head.weight"@),
        selects(matrices_pattern(), "emb.weight"@),
{
    let d = decimal(layer as nat);
    let l = "blocks."@ + d;
    reveal_strlit(".weight");
    reveal_strlit(".att");
    reveal_strlit(".ffn");
    reveal_strlit(".key");
    reveal_strlit(".value");
    reveal_strlit(".receptance");
    reveal_strlit(".gate");
    reveal_strlit(".output");
    reveal_strlit(".att.key.weight");
    assert(l + ".att.key.weight"@ =~= block_matrix(d, ".att"@, ".key"@));
    matrix_names_are_selected(layer, l + ".att.key.weight"@);
    reveal_strlit(".att.value.weight");
    assert(l + ".att.value.weight"@ =~= block_matrix(d, ".att"@, ".value"@));
    matrix_names_are_selected(layer, l + ".att.value.weight"@);
    reveal_strlit(".att.receptance.weight");
    assert(l + ".att.receptance.weight"@ =~= block_matrix(d, ".att"@, ".receptance"@));
    matrix_names_are_selected(layer, l + ".att.receptance.weight"@);
    reveal_strlit(".att.gate.weight");
    assert(l + ".att.gate.weight"@ =~= block_matrix(d, ".att"@, ".gate"@));
    matrix_names_are_selected(layer, l + ".att.gate.weight"@);
    reveal_strlit(".att.output.weight");
    assert(l + ".att.output.weight"@ =~= block_matrix(d, ".att"@, ".output"@));
    matrix_names_are_selected(layer, l + ".att.output.weight"@);
    reveal_strlit(".ffn.key.weight");
    assert(l + ".ffn.key.weight"@ =~= block_matrix(d, ".ffn"@, ".key"@));
    matrix_names_are_selected(layer, l + ".ffn.key.weight"@);
    reveal_strlit(".ffn.value.weight");
    assert(l + ".ffn.value.weight"@ =~= block_matrix(d, ".ffn"@, ".value"@));
    matrix_names_are_selected(layer, l + ".ffn.value.weight"@);
    reveal_strlit(".ffn.receptance.weight");
    assert(l + ".ffn.receptance.weight"@ =~= block_matrix(d, ".ffn"@, ".receptance"@));
    matrix_names_are_selected(layer, l + ".ffn.receptance.weight"@);
    lemma_occurs_at("head.weight"@, "head.weight"@, 0);
    lemma_occurs_at("emb.weight"@, "emb.weight"@, 0);
    blend_patterns_select(layer, "head.weight"@);
    blend_patterns_select(layer, "emb.weight"@);
}

/// The factor that replaces a vector is one, as the bits of a 32-bit float.
pub proof fn replacing_factor_is_one()
    ensures
        ONE_BITS == 0x3f80_0000,
{
}

/// The texts of the blend patterns.
pub proof fn blend_patterns_are(layer: usize)
    ensures
        any_pattern() == ".+"@,
        layer_pattern(layer) == "(blocks|model\\.layers)\\."@ + decimal(layer as nat) + "\\."@,
        matrices_pattern() == layers_of("[0-9]+"@) + "|(emb|embed_tokens|head)\\.weight"@,
        layer_matrices_pattern(layer) == layers_of(decimal(layer as nat)),
{
}

/// The text of the pattern of matrices, for a pattern of the index.
pub open spec fn layers_of(index: Seq<char>) -> Seq<char> {
    "blocks\\."@ + index
        + "\\.((att|ffn)\\.(key|value|receptance|gate|output)\\.weight|att\\.(time_mix_w|time_decay_w|w|a|g|v)(1|2))"@
        + "|model\\.layers\\."@ + index
        + "\\.(self_attn\\.(q|k|v|o|g)_proj|mlp\\.(gate_proj|up_proj|down_proj|c_fc|c_proj))\\.weight"@
}

} // verus!
