//! Low-rank adaptations that are blended into a model while it is loaded.

use regex::Regex;
use vstd::prelude::*;

use super::loader::LoaderError;
use super::reader::{Reader, ReaderTensor, TensorModel};
use crate::pattern::{
    any_pattern, compile, compiles, is_match, layer_matrices_pattern, layer_pattern, matrices_of,
    matrices_pattern, occurs, regex_clone, regex_source, selects,
};
use crate::text::{
    begins_with, find_char, first_index, from_chars, head, join2, join3, lemma_first_index, tail,
    to_chars, to_decimal,
};

verus! {

/// A blend pattern is a regex that matches the name of multiple tensors, and a blend
/// factor.
#[derive(Debug)]
pub struct LoraBlendPattern {
    /// A regex pattern that matches tensors in the model.
    pattern: Regex,
    /// The blend factor, as the bits of a 32-bit float.
    alpha: u32,
}

impl View for LoraBlendPattern {
    type V = (Seq<char>, u32);

    closed spec fn view(&self) -> (Seq<char>, u32) {
        (regex_source(self.pattern), self.alpha)
    }
}

impl LoraBlendPattern {
    /// Blends the tensors whose names match `pattern` with factor `alpha`.
    pub fn new(pattern: &str, alpha: u32) -> (r: Result<Self, LoaderError>)
        ensures
            r is Ok <==> compiles(pattern@),
            r matches Ok(p) ==> p@ == (pattern@, alpha),
            r matches Err(e) ==> e is RegexError,
    {
        match compile(pattern) {
            Ok(pattern) => Ok(LoraBlendPattern { pattern, alpha }),
            Err(e) => Err(LoaderError::RegexError(e)),
        }
    }

    /// The blend factor, as the bits of a 32-bit float.
    pub fn alpha(&self) -> (r: u32)
        ensures
            r == self@.1,
    {
        self.alpha
    }

    /// Whether the pattern matches a name.
    pub fn matches(&self, name: &str) -> (r: bool)
        ensures
            r == selects(self@.0, name@),
    {
        is_match(&self.pattern, name)
    }
}

impl Clone for LoraBlendPattern {
    fn clone(&self) -> (r: Self)
        ensures
            r@ == self@,
    {
        LoraBlendPattern { pattern: regex_clone(&self.pattern), alpha: self.alpha }
    }
}

/// A list of LoRA blend patterns.
#[derive(Debug)]
pub struct LoraBlend(pub Vec<LoraBlendPattern>);

impl View for LoraBlend {
    type V = Seq<(Seq<char>, u32)>;

    open spec fn view(&self) -> Seq<(Seq<char>, u32)> {
        self.0@.map_values(|p: LoraBlendPattern| p@)
    }
}

impl Default for LoraBlend {
    fn default() -> (r: Self)
        ensures
            r@ == Seq::<(Seq<char>, u32)>::empty(),
    {
        let r = LoraBlend(Vec::new());
        assert(r@ =~= Seq::<(Seq<char>, u32)>::empty());
        r
    }
}

impl Clone for LoraBlend {
    fn clone(&self) -> (r: Self)
        ensures
            r@ == self@,
    {
        let mut patterns: Vec<LoraBlendPattern> = Vec::new();
        let mut i: usize = 0;
        while i < self.0.len()
            invariant
                i <= self.0@.len(),
                i == patterns@.len(),
                forall|j: int| 0 <= j < i ==> (#[trigger] patterns@[j])@ == self.0@[j]@,
            decreases self.0@.len() - i,
        {
            patterns.push(self.0[i].clone());
            i += 1;
        }
        let r = LoraBlend(patterns);
        assert(r@ =~= self@);
        r
    }
}

/// The bits of the 32-bit float `1.0`.
pub const ONE_BITS: u32 = 0x3f80_0000;

/// The pattern of the matrices of the layers whose index has the given pattern.
fn matrices_text(index: &str) -> (r: String)
    ensures
        r@ == matrices_of(index@),
{
    let blocks = join3(
        "blocks\\.",
        index,
        "\\.((att|ffn)\\.(key|value|receptance|gate|output)\\.weight|att\\.(time_mix_w|time_decay_w|w|a|g|v)(1|2))",
    );
    let layers = join3(blocks.as_str(), "|model\\.layers\\.", index);
    join2(
        layers.as_str(),
        "\\.(self_attn\\.(q|k|v|o|g)_proj|mlp\\.(gate_proj|up_proj|down_proj|c_fc|c_proj))\\.weight",
    )
}

impl LoraBlend {
    /// Adds a pattern at the end.
    pub fn push(&mut self, pattern: LoraBlendPattern)
        ensures
            final(self)@ == old(self)@.push(pattern@),
    {
        let ghost before = self@;
        self.0.push(pattern);
        assert(self@ =~= before.push(pattern@));
    }

    /// Build a blend pattern that replaces all vectors, and adds to all matrices with
    /// `alpha`.
    pub fn full(alpha: u32) -> (r: Self)
        ensures
            r@ == full_blend(alpha),
    {
        let r = LoraBlend::default().add_nominal(ONE_BITS).add_matrices(alpha);
        assert(r@ =~= full_blend(alpha));
        r
    }

    /// Add a blend pattern that interpolates tensors with factor `alpha` from 0 to 1.
    pub fn add_nominal(self, alpha: u32) -> (r: Self)
        ensures
            r@ == self@.push((any_pattern(), alpha)),
    {
        self.add(".+", alpha)
    }

    /// Add a blend pattern that adds to all matrices with `alpha`.
    pub fn add_matrices(self, alpha: u32) -> (r: Self)
        ensures
            r@ == self@.push((matrices_pattern(), alpha)),
    {
        let pattern = join2(
            matrices_text("[0-9]+").as_str(),
            "|(emb|embed_tokens|head)\\.weight",
        );
        self.add(pattern.as_str(), alpha)
    }

    /// Add a blend pattern that interpolates tensors in a layer with factor `alpha`
    /// from 0 to 1.
    pub fn add_layer_nominal(self, layer: usize, alpha: u32) -> (r: Self)
        ensures
            r@ == self@.push((layer_pattern(layer), alpha)),
    {
        let pattern = join3("(blocks|model\\.layers)\\.", to_decimal(layer).as_str(), "\\.");
        assert(pattern@ == layer_pattern(layer));
        self.add(pattern.as_str(), alpha)
    }

    /// Add a blend pattern that adds to all matrices in a layer with `alpha`.
    pub fn add_layer_matrices(self, layer: usize, alpha: u32) -> (r: Self)
        ensures
            r@ == self@.push((layer_matrices_pattern(layer), alpha)),
    {
        let pattern = matrices_text(to_decimal(layer).as_str());
        assert(pattern@ == layer_matrices_pattern(layer));
        self.add(pattern.as_str(), alpha)
    }

    /// Adds one of the patterns above.
    fn add(self, pattern: &str, alpha: u32) -> (r: Self)
        requires
            crate::pattern::is_blend_pattern(pattern@),
        ensures
            r@ == self@.push((pattern@, alpha)),
    {
        let mut r = self;
        match compile(pattern) {
            Ok(pattern) => {
                r.push(LoraBlendPattern { pattern, alpha });
            },
            Err(_) => {},
        }
        r
    }

    /// The factor of the last pattern that matches a name.
    pub fn factor(&self, name: &str) -> (r: Option<u32>)
        ensures
            r == last_match(self@, name@),
    {
        let mut i: usize = self.0.len();
        let ghost blend = self@;
        assert(blend.take(i as int) =~= blend);
        while i > 0
            invariant
                i <= self.0@.len(),
                blend == self@,
                last_match(blend, name@) == last_match(blend.take(i as int), name@),
            decreases i,
        {
            i -= 1;
            assert(blend.take(i + 1).drop_last() =~= blend.take(i as int));
            assert(blend.take(i + 1).last() == self.0@[i as int]@);
            if self.0[i].matches(name) {
                return Some(self.0[i].alpha());
            }
        }
        None
    }
}

/// The patterns that replace all vectors, and add to all matrices with `alpha`.
pub open spec fn full_blend(alpha: u32) -> Seq<(Seq<char>, u32)> {
    seq![(any_pattern(), ONE_BITS), (matrices_pattern(), alpha)]
}

/// The factor of the last pattern that matches a name.
pub open spec fn last_match(blend: Seq<(Seq<char>, u32)>, name: Seq<char>) -> Option<u32>
    decreases blend.len(),
{
    if blend.len() == 0 {
        None
    } else if selects(blend.last().0, name) {
        Some(blend.last().1)
    } else {
        last_match(blend.drop_last(), name)
    }
}

/// Where a later pattern matches a name, earlier ones do not matter.
pub proof fn later_pattern_wins(
    blend: Seq<(Seq<char>, u32)>,
    pattern: Seq<char>,
    alpha: u32,
    name: Seq<char>,
)
    ensures
        last_match(blend.push((pattern, alpha)), name) == if selects(pattern, name) {
            Some(alpha)
        } else {
            last_match(blend, name)
        },
{
    assert(blend.push((pattern, alpha)).drop_last() =~= blend);
}

/// A LoRA that adds to the model when loading.
pub struct Lora<R> {
    /// Binary safetensors LoRA content.
    pub data: R,
    /// A list of LoRA blend patterns. A blend pattern is a regex that matches the name
    /// of multiple tensors, and a blend factor. When applying the patterns, they are
    /// applied in order.
    pub blend: LoraBlend,
}

/// A tensor of a LoRA that is blended with a tensor of the model.
#[derive(Debug)]
pub struct LoraVector<'a> {
    /// The tensor.
    pub tensor: ReaderTensor<'a>,
    /// The blend factor, as the bits of a 32-bit float.
    pub alpha: u32,
}

/// Two factors of a LoRA whose product is added to a matrix of the model.
#[derive(Debug)]
pub struct LoraMatrix<'a> {
    /// The first factor.
    pub x: ReaderTensor<'a>,
    /// The second factor.
    pub y: ReaderTensor<'a>,
    /// The rank: the second dimension of the first factor, if it has one.
    pub rank: Option<usize>,
    /// The blend factor, as the bits of a 32-bit float.
    pub alpha: u32,
}

/// A `LoraVector` as plain values.
pub struct VectorModel {
    pub tensor: TensorModel,
    pub alpha: u32,
}

/// A `LoraMatrix` as plain values.
pub struct MatrixModel {
    pub x: TensorModel,
    pub y: TensorModel,
    pub rank: Option<usize>,
    pub alpha: u32,
}

impl<'a> View for LoraVector<'a> {
    type V = VectorModel;

    open spec fn view(&self) -> VectorModel {
        VectorModel { tensor: self.tensor@, alpha: self.alpha }
    }
}

impl<'a> View for LoraMatrix<'a> {
    type V = MatrixModel;

    open spec fn view(&self) -> MatrixModel {
        MatrixModel { x: self.x@, y: self.y@, rank: self.rank, alpha: self.alpha }
    }
}

/// What one LoRA blends into a tensor: nothing unless a pattern matches the name and
/// the LoRA has a tensor of that name.
pub open spec fn vector_in<R: Reader>(lora: Lora<R>, name: Seq<char>) -> Seq<VectorModel> {
    match (last_match(lora.blend@, name), lora.data.tensor_of(name)) {
        (Some(alpha), Some(tensor)) => seq![VectorModel { tensor, alpha }],
        _ => Seq::empty(),
    }
}

/// What the LoRAs blend into a tensor, in order.
pub open spec fn vectors_in<R: Reader>(lora: Seq<Lora<R>>, name: Seq<char>) -> Seq<VectorModel>
    decreases lora.len(),
{
    if lora.len() == 0 {
        Seq::empty()
    } else {
        vectors_in(lora.drop_last(), name) + vector_in(lora.last(), name)
    }
}

/// The second dimension of a shape.
pub open spec fn second_dim(shape: Seq<usize>) -> Option<usize> {
    if shape.len() > 1 {
        Some(shape[1])
    } else {
        None
    }
}

/// What one LoRA adds to a matrix: nothing unless a pattern matches the name and the
/// LoRA has both factors.
pub open spec fn matrix_in<R: Reader>(lora: Lora<R>, name: Seq<char>) -> Seq<MatrixModel> {
    let base = lora_base(name);
    match (
        last_match(lora.blend@, name),
        lora.data.tensor_of(base + ".lora.0"@),
        lora.data.tensor_of(base + ".lora.1"@),
    ) {
        (Some(alpha), Some(x), Some(y)) => seq![
            MatrixModel { x, y, rank: second_dim(x.shape), alpha },
        ],
        _ => Seq::empty(),
    }
}

/// What the LoRAs add to a matrix, in order.
pub open spec fn matrices_in<R: Reader>(lora: Seq<Lora<R>>, name: Seq<char>) -> Seq<MatrixModel>
    decreases lora.len(),
{
    if lora.len() == 0 {
        Seq::empty()
    } else {
        matrices_in(lora.drop_last(), name) + matrix_in(lora.last(), name)
    }
}

/// Each LoRA is blended into a tensor at most once in each way.
pub proof fn one_blend_for_each_lora<R: Reader>(lora: Seq<Lora<R>>, name: Seq<char>)
    ensures
        vectors_in(lora, name).len() <= lora.len(),
        matrices_in(lora, name).len() <= lora.len(),
    decreases lora.len(),
{
    if lora.len() > 0 {
        one_blend_for_each_lora(lora.drop_last(), name);
    }
}

/// A tensor whose name no LoRA matches is not blended.
pub proof fn unmatched_is_not_blended<R: Reader>(lora: Seq<Lora<R>>, name: Seq<char>)
    requires
        forall|i: int|
            0 <= i < lora.len() ==> last_match((#[trigger] lora[i]).blend@, name) is None,
    ensures
        vectors_in(lora, name) == Seq::<VectorModel>::empty(),
        matrices_in(lora, name) == Seq::<MatrixModel>::empty(),
    decreases lora.len(),
{
    if lora.len() > 0 {
        let before = lora.drop_last();
        assert forall|i: int| 0 <= i < before.len() implies last_match(
            (#[trigger] before[i]).blend@,
            name,
        ) is None by {
            assert(before[i] == lora[i]);
        }
        unmatched_is_not_blended(before, name);
        assert(last_match(lora[lora.len() - 1].blend@, name) is None);
        assert(vectors_in(lora, name) =~= Seq::<VectorModel>::empty());
        assert(matrices_in(lora, name) =~= Seq::<MatrixModel>::empty());
    }
}

/// The parts of a text between its dots.
pub open spec fn split_dots(s: Seq<char>) -> Seq<Seq<char>>
    decreases s.len(),
{
    let end = first_index(s, '.');
    if end < s.len() {
        seq![s.take(end as int)] + split_dots(s.skip(end as int + 1))
    } else {
        seq![s]
    }
}

/// The parts in which `needle` does not occur.
pub open spec fn parts_without(parts: Seq<Seq<char>>, needle: Seq<char>) -> Seq<Seq<char>>
    decreases parts.len(),
{
    if parts.len() == 0 {
        parts
    } else if occurs(parts.last(), needle) {
        parts_without(parts.drop_last(), needle)
    } else {
        parts_without(parts.drop_last(), needle).push(parts.last())
    }
}

/// The parts with a dot between each two.
pub open spec fn join_dots(parts: Seq<Seq<char>>) -> Seq<char>
    decreases parts.len(),
{
    if parts.len() == 0 {
        Seq::empty()
    } else if parts.len() == 1 {
        parts[0]
    } else {
        join_dots(parts.drop_last()) + seq!['.'] + parts.last()
    }
}

/// The name that the factors of a LoRA have in common, for a matrix of the model: its
/// name without the parts that mention a weight.
pub open spec fn lora_base(name: Seq<char>) -> Seq<char> {
    join_dots(parts_without(split_dots(name), "weight"@))
}

/// Whether `needle` occurs in `s`.
fn find_text(s: &[char], needle: &str) -> (r: bool)
    ensures
        r == occurs(s@, needle@),
{
    let mut i: usize = 0;
    while i < s.len()
        invariant
            i <= s@.len(),
            forall|j: int| 0 <= j < i ==> !begins_with(#[trigger] s@.skip(j), needle@),
        decreases s@.len() - i,
    {
        let rest = tail(s, i);
        if crate::text::strip_prefix(rest.as_slice(), needle).is_some() {
            return true;
        }
        i += 1;
    }
    let rest = tail(s, s.len());
    crate::text::strip_prefix(rest.as_slice(), needle).is_some()
}

/// The name that the factors of a LoRA have in common.
fn base_name(name: &str) -> (r: String)
    ensures
        r@ == lora_base(name@),
{
    let mut rest = to_chars(name);
    let mut any = false;
    let mut out: Vec<char> = Vec::new();
    let mut done = false;
    let ghost mut parts: Seq<Seq<char>> = Seq::empty();
    assert(parts + split_dots(rest@) =~= split_dots(name@));
    while !done
        invariant
            done ==> split_dots(name@) == parts,
            !done ==> split_dots(name@) == parts + split_dots(rest@),
            any == (parts_without(parts, "weight"@).len() > 0),
            out@ == join_dots(parts_without(parts, "weight"@)),
        decreases rest@.len() + (if done {
                0int
            } else {
                1
            }),
    {
        let end = find_char(rest.as_slice(), '.');
        proof {
            lemma_first_index(rest@, '.');
        }
        let part = head(rest.as_slice(), end);
        let ghost whole = rest@;
        if end < rest.len() {
            rest = tail(rest.as_slice(), end + 1);
        } else {
            rest = Vec::new();
            done = true;
        }
        proof {
            let more = parts.push(part@);
            if done {
                assert(part@ =~= whole);
                assert(parts + seq![whole] =~= more);
            } else {
                assert(parts + (seq![part@] + split_dots(rest@)) =~= more + split_dots(rest@));
            }
            assert(more.drop_last() =~= parts);
            parts = more;
        }
        if !find_text(part.as_slice(), "weight") {
            let ghost before = parts_without(parts.drop_last(), "weight"@);
            assert(before.push(part@).drop_last() =~= before);
            if any {
                out.push('.');
            }
            let ghost dotted = out@;
            let mut i: usize = 0;
            while i < part.len()
                invariant
                    i <= part@.len(),
                    out@ == dotted + part@.take(i as int),
                decreases part@.len() - i,
            {
                out.push(part[i]);
                assert(part@.take(i + 1) =~= part@.take(i as int).push(part@[i as int]));
                i += 1;
            }
            assert(part@.take(i as int) =~= part@);
            any = true;
        }
    }
    from_chars(out.as_slice())
}

/// Load all lora and blend factors about the vector with a given name. In each LoRA,
/// only the last matched pattern is loaded.
pub fn lora_vectors<'a, R: Reader>(lora: &'a Vec<Lora<R>>, name: &str) -> (r: Vec<LoraVector<'a>>)
    ensures
        r@.map_values(|v: LoraVector<'a>| v@) == vectors_in(lora@, name@),
{
    let mut out: Vec<LoraVector<'a>> = Vec::new();
    let ghost view = |v: LoraVector<'a>| v@;
    let mut i: usize = 0;
    assert(out@.map_values(view) =~= vectors_in(lora@.take(0), name@));
    while i < lora.len()
        invariant
            i <= lora@.len(),
            view == (|v: LoraVector<'a>| v@),
            out@.map_values(view) == vectors_in(lora@.take(i as int), name@),
        decreases lora@.len() - i,
    {
        assert(lora@.take(i + 1).drop_last() =~= lora@.take(i as int));
        assert(lora@.take(i + 1).last() == lora@[i as int]);
        let ghost before = out@;
        let lora = &lora[i];
        if let Some(alpha) = lora.blend.factor(name) {
            if let Ok(tensor) = lora.data.tensor(name) {
                out.push(LoraVector { tensor, alpha });
            }
        }
        assert(out@.map_values(view) =~= before.map_values(view) + vector_in(*lora, name@));
        i += 1;
    }
    assert(lora@.take(i as int) =~= lora@);
    out
}

/// Load all lora and blend factors about the matrix with a given name. In each LoRA,
/// only the last matched pattern is loaded.
pub fn lora_matrices<'a, R: Reader>(lora: &'a Vec<Lora<R>>, name: &str) -> (r: Vec<LoraMatrix<'a>>)
    ensures
        r@.map_values(|m: LoraMatrix<'a>| m@) == matrices_in(lora@, name@),
{
    let base = base_name(name);
    let x_name = join2(base.as_str(), ".lora.0");
    let y_name = join2(base.as_str(), ".lora.1");
    let mut out: Vec<LoraMatrix<'a>> = Vec::new();
    let ghost view = |m: LoraMatrix<'a>| m@;
    let mut i: usize = 0;
    assert(out@.map_values(view) =~= matrices_in(lora@.take(0), name@));
    while i < lora.len()
        invariant
            i <= lora@.len(),
            x_name@ == lora_base(name@) + ".lora.0"@,
            y_name@ == lora_base(name@) + ".lora.1"@,
            view == (|m: LoraMatrix<'a>| m@),
            out@.map_values(view) == matrices_in(lora@.take(i as int), name@),
        decreases lora@.len() - i,
    {
        assert(lora@.take(i + 1).drop_last() =~= lora@.take(i as int));
        assert(lora@.take(i + 1).last() == lora@[i as int]);
        let ghost before = out@;
        let lora = &lora[i];
        if let Some(alpha) = lora.blend.factor(name) {
            if let Ok(x) = lora.data.tensor(x_name.as_str()) {
                if let Ok(y) = lora.data.tensor(y_name.as_str()) {
                    let rank = if x.shape.len() > 1 {
                        Some(x.shape[1])
                    } else {
                        None
                    };
                    out.push(LoraMatrix { x, y, rank, alpha });
                }
            }
        }
        assert(out@.map_values(view) =~= before.map_values(view) + matrix_in(*lora, name@));
        i += 1;
    }
    assert(lora@.take(i as int) =~= lora@);
    out
}

} // verus!
