//! What LoRAs add to the tensors of a model.

use vstd::prelude::*;

use super::loader::{
    interpolations, low_rank_sums, sums, Factor, LoadPlan, Loader, LoaderError, MatrixPlan, OpModel,
    Prepare,
};
use super::lora::{
    join_dots, last_match, lora_base, matrices_in, matrix_in, parts_without, split_dots, vector_in,
    vectors_in, Lora, MatrixModel, VectorModel,
};
use super::model::Quant;
use super::reader::{Reader, TensorModel};
use crate::pattern::{occurs, selects};
use crate::text::{begins_with, first_index, lemma_first_index, lemma_first_index_is};

verus! {

/// The factor of a name is that of the last pattern that selects it.
pub proof fn last_pattern_gives_factor(
    blend: Seq<(Seq<char>, u32)>,
    name: Seq<char>,
    i: int,
)
    requires
        0 <= i < blend.len(),
        selects(blend[i].0, name),
        forall|j: int| i < j < blend.len() ==> !selects((#[trigger] blend[j]).0, name),
    ensures
        last_match(blend, name) == Some(blend[i].1),
    decreases blend.len(),
{
    let before = blend.drop_last();
    if i < before.len() {
        assert(!selects(blend[blend.len() - 1].0, name));
        assert(before[i] == blend[i]);
        assert forall|j: int| i < j < before.len() implies !selects(
            (#[trigger] before[j]).0,
            name,
        ) by {
            assert(!selects(blend[j].0, name));
        }
        last_pattern_gives_factor(before, name, i);
    }
}

/// A name that no pattern selects has no factor.
pub proof fn unselected_name_has_no_factor(blend: Seq<(Seq<char>, u32)>, name: Seq<char>)
    requires
        forall|j: int| 0 <= j < blend.len() ==> !selects((#[trigger] blend[j]).0, name),
    ensures
        last_match(blend, name) is None,
    decreases blend.len(),
{
    if blend.len() > 0 {
        let before = blend.drop_last();
        assert(!selects(blend[blend.len() - 1].0, name));
        assert forall|j: int| 0 <= j < before.len() implies !selects(
            (#[trigger] before[j]).0,
            name,
        ) by {
            assert(!selects(blend[j].0, name));
        }
        unselected_name_has_no_factor(before, name);
    }
}

/// The rank of a product is the second size of its first factor.
pub open spec fn is_rank_of(rank: Option<usize>, x: TensorModel) -> bool {
    &&& x.shape.len() > 1 ==> rank == Some(x.shape[1])
    &&& x.shape.len() <= 1 ==> rank is None
}

/// The product that a LoRA has for a matrix: the factors stand under the base of the name
/// with `.lora.0` and `.lora.1`, the rank is the second size of the first of them, and the
/// factor of the blend is that of the name.
pub open spec fn is_product_of<R: Reader>(m: MatrixModel, lora: Lora<R>, name: Seq<char>) -> bool {
    &&& lora.data.tensor_of(lora_base(name) + ".lora.0"@) == Some(m.x)
    &&& lora.data.tensor_of(lora_base(name) + ".lora.1"@) == Some(m.y)
    &&& is_rank_of(m.rank, m.x)
    &&& last_match(lora.blend@, name) == Some(m.alpha)
}

/// The tensor that a LoRA has under the name of a tensor of the model.
pub open spec fn is_tensor_of<R: Reader>(v: VectorModel, lora: Lora<R>, name: Seq<char>) -> bool {
    &&& lora.data.tensor_of(name) == Some(v.tensor)
    &&& last_match(lora.blend@, name) == Some(v.alpha)
}

/// Each product comes from a LoRA.
pub proof fn products_come_from_loras<R: Reader>(
    lora: Seq<Lora<R>>,
    name: Seq<char>,
    i: int,
) -> (k: int)
    requires
        0 <= i < matrices_in(lora, name).len(),
    ensures
        0 <= k < lora.len(),
        is_product_of(matrices_in(lora, name)[i], lora[k], name),
    decreases lora.len(),
{
    let before = lora.drop_last();
    if i < matrices_in(before, name).len() {
        let k = products_come_from_loras(before, name, i);
        assert(before[k] == lora[k]);
        k
    } else {
        lora.len() - 1
    }
}

/// Each blended tensor comes from a LoRA.
pub proof fn tensors_come_from_loras<R: Reader>(
    lora: Seq<Lora<R>>,
    name: Seq<char>,
    i: int,
) -> (k: int)
    requires
        0 <= i < vectors_in(lora, name).len(),
    ensures
        0 <= k < lora.len(),
        is_tensor_of(vectors_in(lora, name)[i], lora[k], name),
    decreases lora.len(),
{
    let before = lora.drop_last();
    if i < vectors_in(before, name).len() {
        let k = tensors_come_from_loras(before, name, i);
        assert(before[k] == lora[k]);
        k
    } else {
        lora.len() - 1
    }
}

/// One more LoRA adds its product behind those of the others, where it has both factors
/// and a pattern for the name, and nothing otherwise.
pub proof fn lora_adds_product<R: Reader>(
    lora: Seq<Lora<R>>,
    more: Lora<R>,
    name: Seq<char>,
)
    ensures
        matrices_in(Seq::<Lora<R>>::empty(), name) == Seq::<MatrixModel>::empty(),
        ({
            let x = more.data.tensor_of(lora_base(name) + ".lora.0"@);
            let y = more.data.tensor_of(lora_base(name) + ".lora.1"@);
            let alpha = last_match(more.blend@, name);
            let before = matrices_in(lora, name);
            let after = matrices_in(lora.push(more), name);
            &&& x is Some && y is Some && alpha is Some ==> after == before.push(after.last())
                && is_product_of(after.last(), more, name)
            &&& x is None || y is None || alpha is None ==> after == before
        }),
{
    assert(lora.push(more).drop_last() =~= lora);
    let before = matrices_in(lora, name);
    let after = matrices_in(lora.push(more), name);
    assert(after == before + matrix_in(more, name));
    if matrix_in(more, name).len() == 0 {
        assert(after =~= before);
    } else {
        assert(after =~= before.push(after.last()));
    }
}

/// One more LoRA adds its tensor of the name behind those of the others, where it has one
/// and a pattern for the name, and nothing otherwise.
pub proof fn lora_adds_tensor<R: Reader>(
    lora: Seq<Lora<R>>,
    more: Lora<R>,
    name: Seq<char>,
)
    ensures
        vectors_in(Seq::<Lora<R>>::empty(), name) == Seq::<VectorModel>::empty(),
        ({
            let tensor = more.data.tensor_of(name);
            let alpha = last_match(more.blend@, name);
            let before = vectors_in(lora, name);
            let after = vectors_in(lora.push(more), name);
            &&& tensor is Some && alpha is Some ==> after == before.push(
                VectorModel { tensor: tensor->Some_0, alpha: alpha->Some_0 },
            )
            &&& tensor is None || alpha is None ==> after == before
        }),
{
    assert(lora.push(more).drop_last() =~= lora);
    let before = vectors_in(lora, name);
    let after = vectors_in(lora.push(more), name);
    assert(after == before + vector_in(more, name));
    if vector_in(more, name).len() == 0 {
        assert(after =~= before);
    } else {
        assert(after =~= before.push(after.last()));
    }
}

/// What is blended into a matrix: products of LoRAs, added with `alpha / rank`, where the
/// rank is the second size of the first factor, and tensors of LoRAs, added with `alpha`;
/// both are multiplied by the discount of the matrix, if there is one. The products come
/// before the tensors.
pub proof fn matrix_blends_add_loras<R: Reader>(
    loader: Loader<R>,
    name: Seq<char>,
    discount: Option<u32>,
    i: int,
)
    requires
        0 <= i < loader.matrix_blends(name, discount).len(),
    ensures
        match loader.matrix_blends(name, discount)[i] {
            OpModel::BlendLora { factor, x, y } => {
                &&& i < matrices_in(loader.lora@, name).len()
                &&& factor matches Factor::LowRank { alpha, rank, discount: d }
                &&& d == discount
                &&& x.shape.len() > 1 ==> rank == Some(x.shape[1])
                &&& x.shape.len() <= 1 ==> rank is None
                &&& exists|k: int|
                    #![trigger loader.lora@[k]]
                    {
                        &&& 0 <= k < loader.lora@.len()
                        &&& loader.lora@[k].data.tensor_of(lora_base(name) + ".lora.0"@) == Some(x)
                        &&& loader.lora@[k].data.tensor_of(lora_base(name) + ".lora.1"@) == Some(y)
                        &&& last_match(loader.lora@[k].blend@, name) == Some(alpha)
                    }
            },
            OpModel::Blend { factor, tensor } => {
                &&& i >= matrices_in(loader.lora@, name).len()
                &&& factor matches Factor::Sum { alpha, discount: d }
                &&& d == discount
                &&& exists|k: int|
                    #![trigger loader.lora@[k]]
                    {
                        &&& 0 <= k < loader.lora@.len()
                        &&& loader.lora@[k].data.tensor_of(name) == Some(tensor)
                        &&& last_match(loader.lora@[k].blend@, name) == Some(alpha)
                    }
            },
            _ => false,
        },
{
    let lora = loader.lora@;
    let n = matrices_in(lora, name).len();
    let ops = loader.matrix_blends(name, discount);
    if i < n {
        assert(ops[i] == low_rank_sums(matrices_in(lora, name), discount)[i]);
        let k = products_come_from_loras(lora, name, i);
        assert(is_product_of(matrices_in(lora, name)[i], lora[k], name));
    } else {
        assert(ops[i] == sums(vectors_in(lora, name), discount)[i - n]);
        let k = tensors_come_from_loras(lora, name, i - n);
        assert(is_tensor_of(vectors_in(lora, name)[i - n], lora[k], name));
    }
}

/// There is one blend for each product and for each tensor that the LoRAs have, in order.
pub proof fn matrix_blends_are_in_order<R: Reader>(
    loader: Loader<R>,
    name: Seq<char>,
    discount: Option<u32>,
    i: int,
)
    ensures
        ({
            let products = matrices_in(loader.lora@, name);
            let tensors = vectors_in(loader.lora@, name);
            let ops = loader.matrix_blends(name, discount);
            &&& ops.len() == products.len() + tensors.len()
            &&& 0 <= i < products.len() ==> (ops[i] matches OpModel::BlendLora { factor, x, y } && x
                == products[i].x && y == products[i].y && (factor matches Factor::LowRank {
                alpha,
                rank,
                ..
            } && alpha == products[i].alpha && rank == products[i].rank))
            &&& 0 <= i < tensors.len() ==> (ops[products.len() + i] matches OpModel::Blend {
                factor,
                tensor,
            } && tensor == tensors[i].tensor && (factor matches Factor::Sum { alpha, .. } && alpha
                == tensors[i].alpha))
        }),
{
}

/// What is blended into a vector: tensors of LoRAs, with `alpha` for them and `1 - alpha`
/// for the vector.
pub proof fn vector_blends_interpolate<R: Reader>(loader: Loader<R>, name: Seq<char>, i: int)
    requires
        0 <= i < loader.vector_blends(name).len(),
    ensures
        loader.vector_blends(name).len() == vectors_in(loader.lora@, name).len(),
        loader.vector_blends(name)[i] matches OpModel::Blend { factor, tensor } && {
            &&& tensor == vectors_in(loader.lora@, name)[i].tensor
            &&& factor matches Factor::Interpolate { alpha }
            &&& alpha == vectors_in(loader.lora@, name)[i].alpha
            &&& exists|k: int|
                #![trigger loader.lora@[k]]
                {
                    &&& 0 <= k < loader.lora@.len()
                    &&& loader.lora@[k].data.tensor_of(name) == Some(tensor)
                    &&& last_match(loader.lora@[k].blend@, name) == Some(alpha)
                }
        },
{
    let lora = loader.lora@;
    assert(loader.vector_blends(name)[i] == interpolations(vectors_in(lora, name))[i]);
    let k = tensors_come_from_loras(lora, name, i);
    assert(is_tensor_of(vectors_in(lora, name)[i], lora[k], name));
}

/// A plan starts from the tensor of its name, and is owed where there is one.
pub proof fn plan_starts_from_named_tensor<R: Reader>(
    loader: Loader<R>,
    r: Result<LoadPlan<'_>, LoaderError>,
    name: Seq<char>,
    prepare: Prepare,
    ops: Seq<OpModel>,
)
    requires
        loader.plans(r, name, prepare, ops),
    ensures
        r is Ok <==> loader.model.tensor_of(name) is Some,
        r matches Ok(plan) ==> {
            &&& loader.model.tensor_of(name) == Some(plan@.source)
            &&& plan@.prepare == prepare
            &&& plan@.ops == ops
        },
{
}

/// A matrix that is not quantized is loaded as 16-bit floats. One that is goes to a buffer
/// of its own shape, in which the last of the stored sizes comes first.
pub proof fn matrix_plan_is_quantized_as_asked<R: Reader>(
    loader: Loader<R>,
    r: Result<MatrixPlan<'_>, LoaderError>,
    name: Seq<char>,
    quant: Quant,
    discount: Option<u32>,
    direct: Prepare,
    in_place: Prepare,
)
    requires
        loader.plans_matrix(r, name, quant, discount, direct, in_place),
    ensures
        quant == Quant::Fp16 ==> (r matches Ok(plan) ==> (plan matches MatrixPlan::Fp16(plan)
            && loader.model.tensor_of(name) == Some(plan@.source) && plan@.prepare == direct
            && plan@.ops == loader.matrix_blends(name, discount))),
        quant != Quant::Fp16 ==> (r matches Ok(plan) ==> (plan matches MatrixPlan::Quantized {
            shape,
            load,
            quant: q,
        } && q == quant && (loader.model.shape_of(name) matches Some(stored) && shape@.len()
            == stored.len() && forall|i: int|
            0 <= i < stored.len() ==> #[trigger] shape@[i] == stored[stored.len() - 1 - i]) && (
        load matches Ok(plan) ==> loader.model.tensor_of(name) == Some(plan@.source)
            && plan@.prepare == in_place && plan@.ops == loader.matrix_blends(name, discount)))),
        quant != Quant::Fp16 ==> (r is Ok <==> loader.model.shape_of(name) is Some),
        quant == Quant::Fp16 ==> (r is Ok <==> loader.model.tensor_of(name) is Some),
{
}

proof fn lemma_split(s: Seq<char>)
    ensures
        split_dots(s).len() > 0,
        join_dots(split_dots(s)) == s,
    decreases s.len(),
{
    let end = first_index(s, '.') as int;
    lemma_first_index(s, '.');
    if end < s.len() {
        let rest = s.skip(end + 1);
        lemma_split(rest);
        lemma_join_front(s.take(end), split_dots(rest));
        assert(s =~= s.take(end) + seq!['.'] + rest);
    } else {
        assert(join_dots(seq![s]) == s);
    }
}

proof fn lemma_parts_are_free(s: Seq<char>, needle: Seq<char>)
    requires
        !occurs(s, needle),
    ensures
        forall|i: int| 0 <= i < split_dots(s).len() ==> !occurs(#[trigger] split_dots(s)[i], needle),
    decreases s.len(),
{
    let end = first_index(s, '.') as int;
    let parts = split_dots(s);
    lemma_first_index(s, '.');
    if end < s.len() {
        let rest = s.skip(end + 1);
        lemma_part_is_free(s, needle, 0, end);
        lemma_part_is_free(s, needle, end + 1, s.len() as int);
        assert(s.subrange(0, end) =~= s.take(end));
        assert(s.subrange(end + 1, s.len() as int) =~= rest);
        lemma_parts_are_free(rest, needle);
        assert forall|i: int| 0 <= i < parts.len() implies !occurs(#[trigger] parts[i], needle) by {
            if i > 0 {
                assert(parts[i] == split_dots(rest)[i - 1]);
            }
        }
    }
}

proof fn lemma_join_front(part: Seq<char>, parts: Seq<Seq<char>>)
    requires
        parts.len() > 0,
    ensures
        join_dots(seq![part] + parts) == part + seq!['.'] + join_dots(parts),
    decreases parts.len(),
{
    let all = seq![part] + parts;
    if parts.len() == 1 {
        assert(all.drop_last() =~= seq![part]);
        assert(join_dots(seq![part]) == part);
        assert(join_dots(parts) == parts[0]);
        assert(all.last() == parts[0]);
        assert(join_dots(all) =~= part + seq!['.'] + join_dots(parts));
    } else {
        lemma_join_front(part, parts.drop_last());
        assert(all.last() == parts.last());
        assert(all.drop_last() =~= seq![part] + parts.drop_last());
        assert(join_dots(all) =~= part + seq!['.'] + join_dots(parts));
    }
}

proof fn lemma_parts_stay(parts: Seq<Seq<char>>, needle: Seq<char>)
    requires
        forall|i: int| 0 <= i < parts.len() ==> !occurs(#[trigger] parts[i], needle),
    ensures
        parts_without(parts, needle) == parts,
    decreases parts.len(),
{
    if parts.len() > 0 {
        let before = parts.drop_last();
        assert forall|i: int| 0 <= i < before.len() implies !occurs(
            #[trigger] before[i],
            needle,
        ) by {
            assert(before[i] == parts[i]);
        }
        lemma_parts_stay(before, needle);
        assert(!occurs(parts[parts.len() - 1], needle));
        assert(before.push(parts.last()) =~= parts);
    }
}

proof fn lemma_part_is_free(s: Seq<char>, needle: Seq<char>, a: int, b: int)
    requires
        !occurs(s, needle),
        0 <= a <= b <= s.len(),
    ensures
        !occurs(s.subrange(a, b), needle),
{
    let part = s.subrange(a, b);
    if occurs(part, needle) {
        let i = choose|i: int| 0 <= i <= part.len() && begins_with(#[trigger] part.skip(i), needle);
        assert(s.skip(a + i).take(needle.len() as int) =~= part.skip(i).take(needle.len() as int));
        assert(begins_with(s.skip(a + i), needle));
    }
}

/// The factors of a LoRA stand under the name of the matrix itself where that does not
/// mention a weight.
pub proof fn base_of_plain_name(name: Seq<char>)
    requires
        !occurs(name, "weight"@),
    ensures
        lora_base(name) == name,
{
    lemma_split(name);
    let parts = split_dots(name);
    lemma_parts_are_free(name, "weight"@);
    lemma_parts_stay(parts, "weight"@);
}

proof fn lemma_split_end(stem: Seq<char>, end: Seq<char>)
    requires
        forall|i: int| 0 <= i < end.len() ==> end[i] != '.',
    ensures
        split_dots(stem + seq!['.'] + end) == split_dots(stem).push(end),
    decreases stem.len(),
{
    let s = stem + seq!['.'] + end;
    let k = first_index(stem, '.') as int;
    lemma_first_index(stem, '.');
    if k < stem.len() {
        lemma_first_index_is(s, '.', k);
        let rest = stem.skip(k + 1);
        lemma_split_end(rest, end);
        assert(s.skip(k + 1) =~= rest + seq!['.'] + end);
        assert(s.take(k) =~= stem.take(k));
        assert(seq![stem.take(k)] + split_dots(rest).push(end) =~= (seq![stem.take(k)] + split_dots(
            rest,
        )).push(end));
    } else {
        lemma_first_index_is(s, '.', stem.len() as int);
        assert(s.take(stem.len() as int) =~= stem);
        assert(s.skip(stem.len() as int + 1) =~= end);
        lemma_first_index_is(end, '.', end.len() as int);
        assert(split_dots(end) == seq![end]);
        assert(seq![stem] + seq![end] =~= seq![stem].push(end));
    }
}

/// The factors of a LoRA for a weight stand under the name without its `.weight`.
pub proof fn base_of_weight(stem: Seq<char>)
    requires
        !occurs(stem, "weight"@),
    ensures
        lora_base(stem + ".weight"@) == stem,
{
    reveal_strlit("weight");
    reveal_strlit(".weight");
    let end = "weight"@;
    assert(stem + ".weight"@ =~= stem + seq!['.'] + end);
    lemma_split_end(stem, end);
    let parts = split_dots(stem);
    assert(end.skip(0).take(end.len() as int) =~= end);
    assert(occurs(end, end)) by {
        assert(begins_with(end.skip(0), end));
    }
    assert(parts.push(end).drop_last() =~= parts);
    base_of_plain_name(stem);
    lemma_parts_are_free(stem, end);
    lemma_parts_stay(parts, end);
}

} // verus!
