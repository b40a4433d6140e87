//! Regular expressions of the `regex` crate.

use regex::Regex;
use vstd::prelude::*;

use crate::text::{all_digits, begins_with, decimal};

verus! {

/// A compiled regular expression of the `regex` crate.
#[verifier::external_type_specification]
#[verifier::external_body]
pub struct ExRegex(regex::Regex);

/// The error of the `regex` crate.
#[verifier::external_type_specification]
#[verifier::external_body]
pub struct ExRegexError(regex::Error);

/// The text that a regular expression was compiled from, as `Regex::as_str` gives it.
pub uninterp spec fn regex_source(re: Regex) -> Seq<char>;

/// Whether `Regex::new` accepts a pattern.
pub uninterp spec fn compiles(pattern: Seq<char>) -> bool;

/// The texts that `Regex::find_iter` gives for a pattern and a text, in order.
pub uninterp spec fn matches_in(pattern: Seq<char>, text: Seq<char>) -> Seq<Seq<char>>;

/// Whether `Regex::is_match` finds a pattern in a text.
pub uninterp spec fn is_match_in(pattern: Seq<char>, text: Seq<char>) -> bool;

/// The pattern of every tensor name.
pub open spec fn any_pattern() -> Seq<char> {
    ".+"@
}

/// The pattern of the matrices of the layers whose index has the given pattern: those of
/// the RWKV models, with their low-rank factors, and those of the power-retention models.
pub open spec fn matrices_of(index: Seq<char>) -> Seq<char> {
    "blocks\\."@ + index
        + "\\.((att|ffn)\\.(key|value|receptance|gate|output)\\.weight|att\\.(time_mix_w|time_decay_w|w|a|g|v)(1|2))"@
        + "|model\\.layers\\."@ + index
        + "\\.(self_attn\\.(q|k|v|o|g)_proj|mlp\\.(gate_proj|up_proj|down_proj|c_fc|c_proj))\\.weight"@
}

/// The pattern of the matrices of a model.
pub open spec fn matrices_pattern() -> Seq<char> {
    matrices_of("[0-9]+"@) + "|(emb|embed_tokens|head)\\.weight"@
}

/// The pattern of the tensors of one layer.
pub open spec fn layer_pattern(layer: usize) -> Seq<char> {
    "(blocks|model\\.layers)\\."@ + decimal(layer as nat) + "\\."@
}

/// The pattern of the matrices of one layer.
pub open spec fn layer_matrices_pattern(layer: usize) -> Seq<char> {
    matrices_of(decimal(layer as nat))
}

/// A text that the names of a layer begin with.
pub open spec fn layer_text(prefix: Seq<char>, layer: usize) -> Seq<char> {
    prefix + decimal(layer as nat) + "."@
}

/// What the names of the layers of some model begin with.
pub open spec fn is_layer_prefix(prefix: Seq<char>) -> bool {
    prefix == "blocks."@ || prefix == "model.layers."@
}

/// A name mentions a layer.
pub open spec fn names_layer(name: Seq<char>, layer: usize) -> bool {
    ||| occurs(name, layer_text("blocks."@, layer))
    ||| occurs(name, layer_text("model.layers."@, layer))
}

/// The parts of an RWKV layer.
pub open spec fn is_block_part(part: Seq<char>) -> bool {
    part == ".att"@ || part == ".ffn"@
}

/// The matrices of a part of an RWKV layer.
pub open spec fn is_block_kind(kind: Seq<char>) -> bool {
    ||| kind == ".key"@
    ||| kind == ".value"@
    ||| kind == ".receptance"@
    ||| kind == ".gate"@
    ||| kind == ".output"@
}

/// The matrices of an RWKV layer that are given by two factors.
pub open spec fn is_factor_kind(kind: Seq<char>) -> bool {
    ||| kind == ".time_mix_w"@
    ||| kind == ".time_decay_w"@
    ||| kind == ".w"@
    ||| kind == ".a"@
    ||| kind == ".g"@
    ||| kind == ".v"@
}

/// The matrices of a power-retention layer.
pub open spec fn is_model_kind(kind: Seq<char>) -> bool {
    ||| kind == ".self_attn.q_proj"@
    ||| kind == ".self_attn.k_proj"@
    ||| kind == ".self_attn.v_proj"@
    ||| kind == ".self_attn.o_proj"@
    ||| kind == ".self_attn.g_proj"@
    ||| kind == ".mlp.gate_proj"@
    ||| kind == ".mlp.up_proj"@
    ||| kind == ".mlp.down_proj"@
    ||| kind == ".mlp.c_fc"@
    ||| kind == ".mlp.c_proj"@
}

/// The name of a matrix of an RWKV layer.
pub open spec fn block_matrix(index: Seq<char>, part: Seq<char>, kind: Seq<char>) -> Seq<char> {
    "blocks."@ + index + part + kind + ".weight"@
}

/// The name of a factor of a matrix of an RWKV layer.
pub open spec fn block_factor(index: Seq<char>, kind: Seq<char>, number: Seq<char>) -> Seq<char> {
    "blocks."@ + index + ".att"@ + kind + number
}

/// The name of a matrix of a power-retention layer.
pub open spec fn model_matrix(index: Seq<char>, kind: Seq<char>) -> Seq<char> {
    "model.layers."@ + index + kind + ".weight"@
}

/// The name of a matrix of the layer with the given index.
pub open spec fn is_layer_matrix(index: Seq<char>, t: Seq<char>) -> bool {
    ||| exists|part: Seq<char>, kind: Seq<char>|
        is_block_part(part) && is_block_kind(kind) && t == #[trigger] block_matrix(
            index,
            part,
            kind,
        )
    ||| exists|kind: Seq<char>, number: Seq<char>|
        is_factor_kind(kind) && (number == "1"@ || number == "2"@) && t == #[trigger] block_factor(
            index,
            kind,
            number,
        )
    ||| exists|kind: Seq<char>| is_model_kind(kind) && t == #[trigger] model_matrix(index, kind)
}

/// The name of a matrix that no layer has: an embedding or a head. That of a head may have
/// more before it.
pub open spec fn is_end_matrix(t: Seq<char>) -> bool {
    t == "emb.weight"@ || t == "embed_tokens.weight"@ || t == "head.weight"@
}

/// A name mentions a matrix of the layer with the given index.
pub open spec fn names_layer_matrix(name: Seq<char>, index: Seq<char>) -> bool {
    exists|t: Seq<char>| is_layer_matrix(index, t) && #[trigger] occurs(name, t)
}

/// A name mentions a matrix of a model.
pub open spec fn names_matrix(name: Seq<char>) -> bool {
    ||| exists|index: Seq<char>|
        index.len() > 0 && all_digits(index) && #[trigger] names_layer_matrix(name, index)
    ||| exists|t: Seq<char>| is_end_matrix(t) && #[trigger] occurs(name, t)
}

/// Whether a pattern selects a name. What the blend patterns select is told by their
/// parts.
pub open spec fn selects(pattern: Seq<char>, name: Seq<char>) -> bool {
    if pattern == any_pattern() {
        is_more_than_line_feeds(name)
    } else if pattern == matrices_pattern() {
        names_matrix(name)
    } else if exists|layer: usize| pattern == #[trigger] layer_pattern(layer) {
        exists|layer: usize| pattern == #[trigger] layer_pattern(layer) && names_layer(name, layer)
    } else if exists|layer: usize| pattern == #[trigger] layer_matrices_pattern(layer) {
        exists|layer: usize|
            pattern == #[trigger] layer_matrices_pattern(layer) && names_layer_matrix(
                name,
                decimal(layer as nat),
            )
    } else {
        is_match_in(pattern, name)
    }
}

/// The pattern of byte-level BPE when a file gives none.
pub open spec fn default_pattern() -> Seq<char> {
    "(?i:'s|'t|'re|'ve|'m|'ll|'d)|[^\\r\\n\\p{L}\\p{N}]?\\p{L}+|\\p{N}{1,3}| ?[^\\s\\p{L}\\p{N}]+[\\r\\n]*|\\s*[\\r\\n]+|\\s+"@
}

/// `needle` occurs in `s`.
pub open spec fn occurs(s: Seq<char>, needle: Seq<char>) -> bool {
    exists|i: int| 0 <= i <= s.len() && begins_with(#[trigger] s.skip(i), needle)
}

/// Some character is no line feed.
pub open spec fn is_more_than_line_feeds(s: Seq<char>) -> bool {
    exists|i: int| 0 <= i < s.len() && #[trigger] s[i] != '\n'
}

/// Texts one after the other.
pub open spec fn flat_text(pieces: Seq<Seq<char>>) -> Seq<char>
    decreases pieces.len(),
{
    if pieces.len() == 0 {
        Seq::empty()
    } else {
        flat_text(pieces.drop_last()) + pieces.last()
    }
}

/// One of the patterns of tensor names above.
pub open spec fn is_blend_pattern(pattern: Seq<char>) -> bool {
    ||| pattern == any_pattern()
    ||| pattern == matrices_pattern()
    ||| exists|layer: usize| pattern == #[trigger] layer_pattern(layer)
    ||| exists|layer: usize| pattern == #[trigger] layer_matrices_pattern(layer)
}

/// `Regex::new`: whether it succeeds depends on the pattern alone, and the result
/// is made from that pattern. The blend patterns and the default pattern are within its
/// documented syntax: escaped dots, literals, classes, repetition, groups and alternatives.
#[verifier::external_body]
pub(crate) fn compile(pattern: &str) -> (r: Result<Regex, regex::Error>)
    ensures
        r is Ok <==> compiles(pattern@),
        r matches Ok(re) ==> regex_source(re) == pattern@,
        is_blend_pattern(pattern@) || pattern@ == default_pattern() ==> r is Ok,
{
    Regex::new(pattern)
}

/// `Regex::find_iter`: the texts of the successive matches. The default pattern has an
/// alternative for every character (letters, numbers, white space, and all others), so its
/// matches follow one another without a gap and make up the text.
#[verifier::external_body]
pub(crate) fn find_all(re: &Regex, text: &str) -> (r: Vec<String>)
    ensures
        texts(r@) == matches_in(regex_source(*re), text@),
        regex_source(*re) == default_pattern() ==> flat_text(texts(r@)) == text@,
{
    re.find_iter(text).map(|found| found.as_str().to_string()).collect()
}

/// `Regex::is_match`: whether the text holds a match. In the blend patterns escaped dots,
/// letters, digits and underscores stand for themselves, a bar stands between alternatives,
/// and `[0-9]+` stands for one or more decimal digits, so they are found where a text that
/// is put together from these parts occurs; a dot stands for any character but a line feed.
#[verifier::external_body]
pub(crate) fn is_match(re: &Regex, text: &str) -> (r: bool)
    ensures
        r == is_match_in(regex_source(*re), text@),
        (forall|layer: usize|
            regex_source(*re) == #[trigger] layer_pattern(layer) ==> r == names_layer(
                text@,
                layer,
            )),
        (forall|layer: usize|
            regex_source(*re) == #[trigger] layer_matrices_pattern(layer) ==> r
                == names_layer_matrix(text@, decimal(layer as nat))),
        (regex_source(*re) == matrices_pattern() ==> r == names_matrix(text@)),
        (regex_source(*re) == any_pattern() ==> r == is_more_than_line_feeds(text@)),
{
    re.is_match(text)
}

/// `Regex::clone`: the copy is made from the same pattern.
#[verifier::external_body]
pub(crate) fn regex_clone(re: &Regex) -> (r: Regex)
    ensures
        regex_source(r) == regex_source(*re),
{
    re.clone()
}

/// Strings as plain values.
pub open spec fn texts(v: Seq<String>) -> Seq<Seq<char>> {
    v.map_values(|s: String| s@)
}

} // verus!
