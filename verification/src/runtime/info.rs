//! Reading the metadata of a model from the names and shapes of its tensors.

use vstd::prelude::*;

use super::brumby::CustomInfo;
use super::loader::{Loader, LoaderError};
use super::model::{Activation, ModelCustomInfo, ModelInfo, ModelVersion, V6Info, V7Info};
use super::reader::Reader;
use crate::text::{
    begins_with, find_char, first_index, head, lemma_first_index, parse_usize, strip_prefix,
    to_chars, usize_of,
};

verus! {

/// What the names and shapes of a model's tensors say.
pub enum InfoOutcome {
    /// They describe a model.
    Info(ModelInfo),
    /// The tensor of this name, whose shape is needed, is missing.
    NotFound(Seq<char>),
    /// A layer index is no number.
    BadIndex,
    /// They are of no known version.
    InvalidVersion,
    /// They make no sense: a shape has too few dimensions, a size that is divided by
    /// is zero, or a layer index is the largest number there is.
    Nonsense,
}

/// The layer index in a name that begins with `prefix`: the text from there to the
/// next dot, as a number.
pub open spec fn layer_index_of(name: Seq<char>, prefix: Seq<char>) -> Option<usize> {
    let rest = name.skip(prefix.len() as int);
    let end = first_index(rest, '.');
    if end < rest.len() {
        usize_of(rest.take(end as int))
    } else {
        None
    }
}

/// Every name that begins with `prefix` has a layer index.
pub open spec fn indices_read<R: Reader>(model: &R, prefix: Seq<char>) -> bool {
    forall|name: Seq<char>| #[trigger]
        model.has(name) && begins_with(name, prefix) ==> layer_index_of(name, prefix) is Some
}

/// `top` is the largest layer index, or zero where there is none.
pub open spec fn is_top<R: Reader>(model: &R, prefix: Seq<char>, top: usize) -> bool {
    &&& forall|name: Seq<char>| #[trigger]
        model.has(name) && begins_with(name, prefix) ==> layer_index_of(name, prefix)->Some_0 <= top
    &&& top == 0 || exists|name: Seq<char>| #[trigger]
        model.has(name) && begins_with(name, prefix) && layer_index_of(name, prefix) == Some(top)
}

/// The largest layer index, or zero where there is none.
pub open spec fn top_index<R: Reader>(model: &R, prefix: Seq<char>) -> usize {
    choose|top: usize| is_top(model, prefix, top)
}

/// A dimension of a tensor's shape.
pub enum Dim {
    /// There is no tensor of this name.
    Missing(Seq<char>),
    /// The shape has no such dimension.
    Short,
    /// The dimension.
    Of(usize),
}

/// Dimension `axis` of a tensor.
pub open spec fn dim_of<R: Reader>(model: &R, name: Seq<char>, axis: int) -> Dim {
    match model.shape_of(name) {
        None => Dim::Missing(name),
        Some(shape) => if 0 <= axis < shape.len() {
            Dim::Of(shape[axis])
        } else {
            Dim::Short
        },
    }
}

/// What the first dimension that is not there makes of the model.
pub open spec fn first_fault(dims: Seq<Dim>) -> Option<InfoOutcome>
    decreases dims.len(),
{
    if dims.len() == 0 {
        None
    } else {
        match dims[0] {
            Dim::Missing(name) => Some(InfoOutcome::NotFound(name)),
            Dim::Short => Some(InfoOutcome::Nonsense),
            Dim::Of(_) => first_fault(dims.skip(1)),
        }
    }
}

/// The tensors of a PowerCoder model: power retention with a StarCoder2 feed-forward
/// network and no QK norms.
pub open spec fn is_powercoder<R: Reader>(model: &R) -> bool {
    &&& model.has("model.embed_tokens.weight"@)
    &&& model.has("model.layers.0.self_attn.g_proj.weight"@)
    &&& model.has("model.layers.0.mlp.c_fc.weight"@)
    &&& model.has("model.layers.0.mlp.c_proj.weight"@)
    &&& !model.has("model.layers.0.self_attn.q_norm.weight"@)
}

/// The tensors of a Brumby model: power retention with HuggingFace-style names.
pub open spec fn is_brumby<R: Reader>(model: &R) -> bool {
    &&& model.has("model.embed_tokens.weight"@)
    &&& model.has("model.layers.0.self_attn.q_proj.weight"@)
    &&& model.has("model.layers.0.self_attn.k_proj.weight"@)
    &&& model.has("model.layers.0.self_attn.v_proj.weight"@)
    &&& model.has("model.layers.0.self_attn.o_proj.weight"@)
    &&& model.has("model.layers.0.self_attn.g_proj.weight"@)
    &&& model.has("model.layers.0.self_attn.q_norm.weight"@)
    &&& model.has("model.layers.0.self_attn.k_norm.weight"@)
    &&& model.has("model.layers.0.mlp.gate_proj.weight"@)
    &&& model.has("model.layers.0.mlp.up_proj.weight"@)
    &&& model.has("model.layers.0.mlp.down_proj.weight"@)
}

/// The tensors that RWKV v4 models have.
pub open spec fn has_v4<R: Reader>(model: &R) -> bool {
    &&& model.has("blocks.0.att.time_decay"@)
    &&& model.has("blocks.0.att.time_first"@)
    &&& model.has("blocks.0.att.time_mix_k"@)
    &&& model.has("blocks.0.att.time_mix_v"@)
    &&& model.has("blocks.0.att.time_mix_r"@)
}

/// The tensors that RWKV models have from v5 on.
pub open spec fn has_v5<R: Reader>(model: &R) -> bool {
    &&& model.has("blocks.0.att.gate.weight"@)
    &&& model.has("blocks.0.att.ln_x.weight"@)
    &&& model.has("blocks.0.att.ln_x.bias"@)
}

/// The tensors that RWKV v6 models have.
pub open spec fn has_v6<R: Reader>(model: &R) -> bool {
    &&& model.has("blocks.0.att.time_mix_x"@)
    &&& model.has("blocks.0.att.time_mix_w"@)
    &&& model.has("blocks.0.att.time_mix_k"@)
    &&& model.has("blocks.0.att.time_mix_v"@)
    &&& model.has("blocks.0.att.time_mix_r"@)
    &&& model.has("blocks.0.att.time_mix_g"@)
    &&& model.has("blocks.0.att.time_mix_w1"@)
    &&& model.has("blocks.0.att.time_mix_w2"@)
    &&& model.has("blocks.0.att.time_decay_w1"@)
    &&& model.has("blocks.0.att.time_decay_w2"@)
    &&& model.has("blocks.0.ffn.time_mix_k"@)
    &&& model.has("blocks.0.ffn.time_mix_r"@)
}

/// The tensors that RWKV v7 models have.
pub open spec fn has_v7<R: Reader>(model: &R) -> bool {
    &&& model.has("blocks.0.att.x_r"@)
    &&& model.has("blocks.0.att.x_w"@)
    &&& model.has("blocks.0.att.x_k"@)
    &&& model.has("blocks.0.att.x_v"@)
    &&& model.has("blocks.0.att.x_a"@)
    &&& model.has("blocks.0.att.x_g"@)
    &&& model.has("blocks.0.att.w0"@)
    &&& model.has("blocks.0.att.w1"@)
    &&& model.has("blocks.0.att.w2"@)
    &&& model.has("blocks.0.att.a0"@)
    &&& model.has("blocks.0.att.a1"@)
    &&& model.has("blocks.0.att.a2"@)
    &&& model.has("blocks.0.att.g1"@)
    &&& model.has("blocks.0.att.g2"@)
    &&& model.has("blocks.0.att.r_k"@)
    &&& model.has("blocks.0.att.k_k"@)
    &&& model.has("blocks.0.att.k_a"@)
}

/// The RWKV version: the latest whose tensors are all there.
pub open spec fn rwkv_version<R: Reader>(model: &R) -> Option<ModelVersion> {
    if has_v7(model) {
        Some(ModelVersion::V7)
    } else if has_v6(model) {
        Some(ModelVersion::V6)
    } else if has_v5(model) {
        Some(ModelVersion::V5)
    } else if has_v4(model) {
        Some(ModelVersion::V4)
    } else {
        None
    }
}

/// The dimensions that an RWKV version takes from its first layers, in the order in
/// which they are read.
pub open spec fn version_dims<R: Reader>(model: &R, version: ModelVersion) -> Seq<Dim> {
    match version {
        ModelVersion::V5 => seq![dim_of(model, "blocks.0.att.time_first"@, 0)],
        ModelVersion::V6 => seq![
            dim_of(model, "blocks.0.att.time_first"@, 0),
            dim_of(model, "blocks.0.att.time_mix_w1"@, 0),
            dim_of(model, "blocks.0.att.time_decay_w1"@, 0),
        ],
        ModelVersion::V7 => seq![
            dim_of(model, "blocks.0.att.r_k"@, 0),
            dim_of(model, "blocks.0.att.w1"@, 0),
            dim_of(model, "blocks.0.att.a1"@, 0),
            dim_of(model, "blocks.0.att.g1"@, 0),
            dim_of(model, "blocks.1.att.v1"@, 0),
        ],
        _ => seq![],
    }
}

/// What only some RWKV versions have, by the dimensions read for the version.
pub open spec fn version_custom(version: ModelVersion, dims: Seq<Dim>) -> ModelCustomInfo {
    match version {
        ModelVersion::V6 => ModelCustomInfo::V6(
            V6Info { time_mix: (dims[1]->Of_0 / 5) as usize, time_decay: dims[2]->Of_0 },
        ),
        ModelVersion::V7 => ModelCustomInfo::V7(
            V7Info { w: dims[1]->Of_0, a: dims[2]->Of_0, g: dims[3]->Of_0, v: dims[4]->Of_0 },
        ),
        _ => ModelCustomInfo::Plain,
    }
}

/// What the tensors of an RWKV model say.
pub open spec fn rwkv_outcome<R: Reader>(model: &R) -> InfoOutcome {
    let top = top_index(model, "blocks."@);
    let vocab = dim_of(model, "emb.weight"@, 0);
    let emb = dim_of(model, "emb.weight"@, 1);
    let hidden = dim_of(model, "blocks.0.ffn.key.weight"@, 0);
    if !indices_read(model, "blocks."@) {
        InfoOutcome::BadIndex
    } else if top == usize::MAX {
        InfoOutcome::Nonsense
    } else if let Dim::Missing(name) = emb {
        InfoOutcome::NotFound(name)
    } else if let Dim::Missing(name) = hidden {
        InfoOutcome::NotFound(name)
    } else {
        match rwkv_version(model) {
            None => InfoOutcome::InvalidVersion,
            Some(version) => {
                let dims = version_dims(model, version);
                if emb is Short || hidden is Short {
                    InfoOutcome::Nonsense
                } else {
                    match first_fault(dims) {
                        Some(fault) => fault,
                        None => InfoOutcome::Info(
                            ModelInfo {
                                version,
                                num_layer: (top + 1) as usize,
                                num_emb: emb->Of_0,
                                num_hidden: hidden->Of_0,
                                num_vocab: vocab->Of_0,
                                num_head: if version == ModelVersion::V4 {
                                    1
                                } else {
                                    dims[0]->Of_0
                                },
                                custom: version_custom(version, dims),
                            },
                        ),
                    }
                }
            },
        }
    }
}

/// A model of the Brumby family.
pub open spec fn brumby_info(
    top: usize,
    vocab: usize,
    emb: usize,
    num_head: usize,
    custom: CustomInfo,
) -> InfoOutcome {
    InfoOutcome::Info(
        ModelInfo {
            version: ModelVersion::Brumby,
            num_layer: (top + 1) as usize,
            num_emb: emb,
            num_hidden: custom.intermediate_size,
            num_vocab: vocab,
            num_head,
            custom: ModelCustomInfo::Brumby(custom),
        },
    )
}

/// What the tensors of a Brumby model say. The head size is that of the query norm;
/// the projections hold whole heads.
pub open spec fn brumby_outcome<R: Reader>(model: &R) -> InfoOutcome {
    let top = top_index(model, "model.layers."@);
    let vocab = dim_of(model, "model.embed_tokens.weight"@, 0);
    let emb = dim_of(model, "model.embed_tokens.weight"@, 1);
    let hidden = dim_of(model, "model.layers.0.mlp.gate_proj.weight"@, 0);
    let q = dim_of(model, "model.layers.0.self_attn.q_proj.weight"@, 0);
    let k = dim_of(model, "model.layers.0.self_attn.k_proj.weight"@, 0);
    let head = dim_of(model, "model.layers.0.self_attn.q_norm.weight"@, 0);
    if !indices_read(model, "model.layers."@) {
        InfoOutcome::BadIndex
    } else if top == usize::MAX {
        InfoOutcome::Nonsense
    } else {
        match first_fault(seq![emb, hidden]) {
            Some(fault) => fault,
            None => if let Dim::Missing(name) = q {
                InfoOutcome::NotFound(name)
            } else if let Dim::Missing(name) = k {
                InfoOutcome::NotFound(name)
            } else {
                match first_fault(seq![head, q, k]) {
                    Some(fault) => fault,
                    None => if head->Of_0 == 0 {
                        InfoOutcome::Nonsense
                    } else {
                        brumby_info(
                            top,
                            vocab->Of_0,
                            emb->Of_0,
                            (q->Of_0 / head->Of_0) as usize,
                            CustomInfo {
                                num_kv_head: (k->Of_0 / head->Of_0) as usize,
                                head_dim: head->Of_0,
                                intermediate_size: hidden->Of_0,
                                has_qk_norm: true,
                                gated_ffn: true,
                                hidden_act: Activation::Silu,
                                rope_theta_bits: BRUMBY_ROPE_THETA_BITS,
                                power_deg: 1,
                            },
                        )
                    },
                }
            },
        }
    }
}

/// What the tensors of a PowerCoder model say. There is one gate for each group of
/// key-value heads, and the head size follows from that.
pub open spec fn powercoder_outcome<R: Reader>(model: &R) -> InfoOutcome {
    let top = top_index(model, "model.layers."@);
    let vocab = dim_of(model, "model.embed_tokens.weight"@, 0);
    let emb = dim_of(model, "model.embed_tokens.weight"@, 1);
    let hidden = dim_of(model, "model.layers.0.mlp.c_fc.weight"@, 0);
    let q = dim_of(model, "model.layers.0.self_attn.q_proj.weight"@, 0);
    let k = dim_of(model, "model.layers.0.self_attn.k_proj.weight"@, 0);
    let kv = dim_of(model, "model.layers.0.self_attn.g_proj.weight"@, 0);
    if !indices_read(model, "model.layers."@) {
        InfoOutcome::BadIndex
    } else if top == usize::MAX {
        InfoOutcome::Nonsense
    } else {
        match first_fault(seq![emb, hidden]) {
            Some(fault) => fault,
            None => if let Dim::Missing(name) = q {
                InfoOutcome::NotFound(name)
            } else if let Dim::Missing(name) = k {
                InfoOutcome::NotFound(name)
            } else {
                match first_fault(seq![kv, k, q]) {
                    Some(fault) => fault,
                    None => if kv->Of_0 == 0 || k->Of_0 / kv->Of_0 == 0 {
                        InfoOutcome::Nonsense
                    } else {
                        let head = (k->Of_0 / kv->Of_0) as usize;
                        brumby_info(
                            top,
                            vocab->Of_0,
                            emb->Of_0,
                            (q->Of_0 / head) as usize,
                            CustomInfo {
                                num_kv_head: kv->Of_0,
                                head_dim: head,
                                intermediate_size: hidden->Of_0,
                                has_qk_norm: false,
                                gated_ffn: false,
                                hidden_act: Activation::Gelu,
                                rope_theta_bits: POWERCODER_ROPE_THETA_BITS,
                                power_deg: 2,
                            },
                        )
                    },
                }
            },
        }
    }
}

/// What the tensors of a model say.
pub open spec fn info_outcome<R: Reader>(model: &R) -> InfoOutcome {
    if is_powercoder(model) {
        powercoder_outcome(model)
    } else if is_brumby(model) {
        brumby_outcome(model)
    } else {
        rwkv_outcome(model)
    }
}

/// One million, as the bits of a 32-bit float.
pub const BRUMBY_ROPE_THETA_BITS: u32 = 0x4974_2400;

/// Ten thousand, as the bits of a 32-bit float.
pub const POWERCODER_ROPE_THETA_BITS: u32 = 0x461c_4000;

/// A result is what the tensors of a model say.
pub open spec fn tells<R: Reader>(
    model: &R,
    r: Option<Result<ModelInfo, LoaderError>>,
    outcome: InfoOutcome,
) -> bool {
    match outcome {
        InfoOutcome::Info(info) => r matches Some(Ok(i)) && i == info,
        InfoOutcome::NotFound(name) => r matches Some(Err(LoaderError::SafeTensor(e)))
            && model.shape_error(name, e),
        InfoOutcome::BadIndex => r matches Some(Err(e)) && e is ParseIntError,
        InfoOutcome::InvalidVersion => r matches Some(Err(e)) && e is InvalidVersion,
        InfoOutcome::Nonsense => r is None,
    }
}

/// There is one largest layer index.
proof fn lemma_top_index<R: Reader>(model: &R, prefix: Seq<char>, top: usize)
    requires
        indices_read(model, prefix),
        is_top(model, prefix, top),
    ensures
        top_index(model, prefix) == top,
{
    let other = top_index(model, prefix);
    assert(is_top(model, prefix, other));
    if other > top {
        let name = choose|name: Seq<char>| #[trigger]
            model.has(name) && begins_with(name, prefix) && layer_index_of(name, prefix) == Some(
                other,
            );
        assert(layer_index_of(name, prefix)->Some_0 <= top);
    }
    if top > other {
        let name = choose|name: Seq<char>| #[trigger]
            model.has(name) && begins_with(name, prefix) && layer_index_of(name, prefix) == Some(
                top,
            );
        assert(layer_index_of(name, prefix)->Some_0 <= other);
    }
}

/// Where no layer index is above `bound`, there is a largest one.
pub(crate) proof fn lemma_top_exists<R: Reader>(model: &R, prefix: Seq<char>, bound: usize)
    requires
        forall|name: Seq<char>| #[trigger]
            model.has(name) && begins_with(name, prefix) ==> layer_index_of(name, prefix)->Some_0
                <= bound,
        indices_read(model, prefix),
    ensures
        exists|top: usize| is_top(model, prefix, top),
    decreases bound,
{
    if bound == 0 || exists|name: Seq<char>| #[trigger]
        model.has(name) && begins_with(name, prefix) && layer_index_of(name, prefix) == Some(
            bound,
        ) {
        assert(is_top(model, prefix, bound));
    } else {
        lemma_top_exists(model, prefix, (bound - 1) as usize);
    }
}

pub(crate) proof fn lemma_fault_is_no_info(dims: Seq<Dim>)
    ensures
        first_fault(dims) matches Some(fault) ==> fault !is Info,
    decreases dims.len(),
{
    if dims.len() > 0 {
        lemma_fault_is_no_info(dims.skip(1));
    }
}

/// The names that have a layer index, in a model of this kind.
pub open spec fn layer_prefix<R: Reader>(model: &R) -> Seq<char> {
    if is_powercoder(model) || is_brumby(model) {
        "model.layers."@
    } else {
        "blocks."@
    }
}

/// The layers of a model are those that its tensor names mention: every layer index is
/// below the number of layers, and the number is no larger than that takes.
pub proof fn layers_are_those_named<R: Reader>(model: &R, name: Seq<char>)
    requires
        info_outcome(model) is Info,
        model.has(name),
        begins_with(name, layer_prefix(model)),
    ensures
        layer_index_of(name, layer_prefix(model)) is Some,
        layer_index_of(name, layer_prefix(model))->Some_0 < info_outcome(model)->Info_0.num_layer,
        exists|last: Seq<char>| #[trigger]
            model.has(last) && begins_with(last, layer_prefix(model)) && layer_index_of(
                last,
                layer_prefix(model),
            )->Some_0 == info_outcome(model)->Info_0.num_layer - 1,
{
    let prefix = layer_prefix(model);
    lemma_top_exists(model, prefix, usize::MAX);
    assert(is_top(model, prefix, top_index(model, prefix)));
    assert forall|dims: Seq<Dim>| #[trigger] first_fault(dims) matches Some(fault) ==> fault
        !is Info by {
        lemma_fault_is_no_info(dims);
    }
    assert(info_outcome(model)->Info_0.num_layer == top_index(model, prefix) + 1);
    if top_index(model, prefix) == 0 {
        assert(layer_index_of(name, prefix)->Some_0 == 0);
    }
}

/// Finds the largest layer index.
fn find_top<R: Reader>(model: &R, prefix: &str) -> (r: Result<usize, LoaderError>)
    ensures
        r is Ok <==> indices_read(model, prefix@),
        r matches Ok(top) ==> top == top_index(model, prefix@),
        r matches Err(e) ==> e is ParseIntError,
{
    let names = model.names();
    let mut top: usize = 0;
    let mut i: usize = 0;
    while i < names.len()
        invariant
            i <= names@.len(),
            forall|name: Seq<char>| #[trigger]
                model.has(name) <==> exists|j: int|
                    0 <= j < names@.len() && (#[trigger] names@[j])@ == name,
            forall|j: int|
                0 <= j < i && begins_with((#[trigger] names@[j])@, prefix@) ==> layer_index_of(
                    names@[j]@,
                    prefix@,
                ) is Some && layer_index_of(names@[j]@, prefix@)->Some_0 <= top,
            top == 0 || exists|j: int|
                0 <= j < i && begins_with((#[trigger] names@[j])@, prefix@) && layer_index_of(
                    names@[j]@,
                    prefix@,
                ) == Some(top),
        decreases names@.len() - i,
    {
        let name = names[i];
        let chars = to_chars(name);
        assert(model.has(names@[i as int]@));
        if let Some(rest) = strip_prefix(chars.as_slice(), prefix) {
            let end = find_char(rest.as_slice(), '.');
            proof {
                lemma_first_index(rest@, '.');
            }
            let index = if end < rest.len() {
                parse_usize(head(rest.as_slice(), end).as_slice())
            } else {
                None
            };
            match index {
                Some(index) => {
                    assert(layer_index_of(names@[i as int]@, prefix@) == Some(index));
                    if index > top {
                        top = index;
                    }
                },
                None => {
                    return Err(LoaderError::ParseIntError);
                },
            }
        }
        i += 1;
    }
    proof {
        assert forall|name: Seq<char>| #[trigger]
            model.has(name) && begins_with(name, prefix@) implies layer_index_of(
            name,
            prefix@,
        ) is Some && layer_index_of(name, prefix@)->Some_0 <= top by {
            let j = choose|j: int| 0 <= j < names@.len() && (#[trigger] names@[j])@ == name;
            assert(names@[j]@ == name);
        }
        if top != 0 {
            let j = choose|j: int|
                0 <= j < names@.len() && begins_with((#[trigger] names@[j])@, prefix@)
                    && layer_index_of(names@[j]@, prefix@) == Some(top);
            assert(model.has(names@[j]@));
        }
        assert(is_top(model, prefix@, top));
        lemma_top_index(model, prefix@, top);
    }
    Ok(top)
}

/// A dimension as it was read.
enum DimRead {
    Of(usize),
    Short,
    Failed(LoaderError),
}

/// Reads a dimension.
fn read_dim<R: Reader>(model: &R, name: &str, axis: usize) -> (r: DimRead)
    ensures
        match dim_of(model, name@, axis as int) {
            Dim::Missing(name) => r matches DimRead::Failed(LoaderError::SafeTensor(e))
                && model.shape_error(name, e),
            Dim::Short => r is Short,
            Dim::Of(n) => r matches DimRead::Of(m) && m == n,
        },
{
    match model.shape(name) {
        Ok(shape) => if axis < shape.len() {
            DimRead::Of(shape[axis])
        } else {
            DimRead::Short
        },
        Err(e) => DimRead::Failed(LoaderError::SafeTensor(e)),
    }
}

fn find_version<R: Reader>(model: &R) -> (r: Option<ModelVersion>)
    ensures
        r == rwkv_version(model),
{
    let v4 = model.contains("blocks.0.att.time_decay")
        && model.contains("blocks.0.att.time_first")
        && model.contains("blocks.0.att.time_mix_k")
        && model.contains("blocks.0.att.time_mix_v")
        && model.contains("blocks.0.att.time_mix_r");
    let v5 = model.contains("blocks.0.att.gate.weight")
        && model.contains("blocks.0.att.ln_x.weight")
        && model.contains("blocks.0.att.ln_x.bias");
    let v6 = model.contains("blocks.0.att.time_mix_x")
        && model.contains("blocks.0.att.time_mix_w")
        && model.contains("blocks.0.att.time_mix_k")
        && model.contains("blocks.0.att.time_mix_v")
        && model.contains("blocks.0.att.time_mix_r")
        && model.contains("blocks.0.att.time_mix_g")
        && model.contains("blocks.0.att.time_mix_w1")
        && model.contains("blocks.0.att.time_mix_w2")
        && model.contains("blocks.0.att.time_decay_w1")
        && model.contains("blocks.0.att.time_decay_w2")
        && model.contains("blocks.0.ffn.time_mix_k")
        && model.contains("blocks.0.ffn.time_mix_r");
    let v7 = model.contains("blocks.0.att.x_r")
        && model.contains("blocks.0.att.x_w")
        && model.contains("blocks.0.att.x_k")
        && model.contains("blocks.0.att.x_v")
        && model.contains("blocks.0.att.x_a")
        && model.contains("blocks.0.att.x_g")
        && model.contains("blocks.0.att.w0")
        && model.contains("blocks.0.att.w1")
        && model.contains("blocks.0.att.w2")
        && model.contains("blocks.0.att.a0")
        && model.contains("blocks.0.att.a1")
        && model.contains("blocks.0.att.a2")
        && model.contains("blocks.0.att.g1")
        && model.contains("blocks.0.att.g2")
        && model.contains("blocks.0.att.r_k")
        && model.contains("blocks.0.att.k_k")
        && model.contains("blocks.0.att.k_a");
    match (v4, v5, v6, v7) {
        (true, false, false, false) => Some(ModelVersion::V4),
        (_, true, false, false) => Some(ModelVersion::V5),
        (_, _, true, false) => Some(ModelVersion::V6),
        (_, _, _, true) => Some(ModelVersion::V7),
        _ => None,
    }
}

/// The faults of a list are those of its parts.
pub(crate) proof fn lemma_first_fault(dims: Seq<Dim>)
    ensures
        first_fault(dims) is None <==> forall|i: int|
            0 <= i < dims.len() ==> (#[trigger] dims[i]) is Of,
        forall|i: int|
            0 <= i < dims.len() && (#[trigger] dims[i]) !is Of && (forall|j: int|
                0 <= j < i ==> (#[trigger] dims[j]) is Of) ==> first_fault(dims) == Some(
                match dims[i] {
                    Dim::Missing(name) => InfoOutcome::NotFound(name),
                    _ => InfoOutcome::Nonsense,
                },
            ),
    decreases dims.len(),
{
    if dims.len() > 0 {
        let rest = dims.skip(1);
        lemma_first_fault(rest);
        assert forall|i: int| 0 <= i < rest.len() implies rest[i] == dims[i + 1] by {}
        if dims[0] is Of {
            if first_fault(dims) is None {
                assert forall|i: int| 0 <= i < dims.len() implies (#[trigger] dims[i]) is Of by {
                    if i > 0 {
                        assert(rest[i - 1] is Of);
                    }
                }
            }
            if forall|i: int| 0 <= i < dims.len() ==> (#[trigger] dims[i]) is Of {
                assert forall|i: int| 0 <= i < rest.len() implies (#[trigger] rest[i]) is Of by {
                    assert(dims[i + 1] is Of);
                }
            }
            assert forall|i: int|
                0 <= i < dims.len() && (#[trigger] dims[i]) !is Of && (forall|j: int|
                    0 <= j < i ==> (#[trigger] dims[j]) is Of) implies first_fault(dims) == Some(
                match dims[i] {
                    Dim::Missing(name) => InfoOutcome::NotFound(name),
                    _ => InfoOutcome::Nonsense,
                },
            ) by {
                assert(rest[i - 1] !is Of);
                assert forall|j: int| 0 <= j < i - 1 implies (#[trigger] rest[j]) is Of by {
                    assert(dims[j + 1] is Of);
                }
            }
        }
    }
}

impl<R: Reader> Loader<R> {
    /// Reads what is known of a model before its weights are loaded.
    pub fn info(model: &R) -> (r: Result<ModelInfo, LoaderError>)
        requires
            info_outcome(model) !is Nonsense,
        ensures
            tells(model, Some(r), info_outcome(model)),
    {
        match Self::checked_info(model) {
            Some(r) => r,
            None => vstd::pervasive::unreached(),
        }
    }

    /// Reads what is known of a model before its weights are loaded. There is no
    /// result where its shapes make no sense.
    pub fn checked_info(model: &R) -> (r: Option<Result<ModelInfo, LoaderError>>)
        ensures
            tells(model, r, info_outcome(model)),
    {
        let powercoder = model.contains("model.embed_tokens.weight")
            && model.contains("model.layers.0.self_attn.g_proj.weight")
            && model.contains("model.layers.0.mlp.c_fc.weight")
            && model.contains("model.layers.0.mlp.c_proj.weight")
            && !model.contains("model.layers.0.self_attn.q_norm.weight");
        if powercoder {
            return Self::info_powercoder(model);
        }
        let brumby = model.contains("model.embed_tokens.weight")
            && model.contains("model.layers.0.self_attn.q_proj.weight")
            && model.contains("model.layers.0.self_attn.k_proj.weight")
            && model.contains("model.layers.0.self_attn.v_proj.weight")
            && model.contains("model.layers.0.self_attn.o_proj.weight")
            && model.contains("model.layers.0.self_attn.g_proj.weight")
            && model.contains("model.layers.0.self_attn.q_norm.weight")
            && model.contains("model.layers.0.self_attn.k_norm.weight")
            && model.contains("model.layers.0.mlp.gate_proj.weight")
            && model.contains("model.layers.0.mlp.up_proj.weight")
            && model.contains("model.layers.0.mlp.down_proj.weight");
        if brumby {
            return Self::info_brumby(model);
        }
        Self::info_rwkv(model)
    }

    /// Reads what is known of an RWKV model.
    fn info_rwkv(model: &R) -> (r: Option<Result<ModelInfo, LoaderError>>)
        ensures
            tells(model, r, rwkv_outcome(model)),
    {
        let top = match find_top(model, "blocks.") {
            Ok(top) => top,
            Err(e) => return Some(Err(e)),
        };
        if top == usize::MAX {
            return None;
        }
        let embed = match model.shape("emb.weight") {
            Ok(shape) => shape,
            Err(e) => return Some(Err(LoaderError::SafeTensor(e))),
        };
        let ffn = match model.shape("blocks.0.ffn.key.weight") {
            Ok(shape) => shape,
            Err(e) => return Some(Err(LoaderError::SafeTensor(e))),
        };
        let version = match find_version(model) {
            Some(version) => version,
            None => return Some(Err(LoaderError::InvalidVersion)),
        };
        if embed.len() < 2 || ffn.len() < 1 {
            return None;
        }
        let ghost dims = version_dims(model, version);
        proof {
            lemma_first_fault(dims);
        }
        let num_head = match version {
            ModelVersion::V5 | ModelVersion::V6 => {
                assert(dims[0] == dim_of(model, "blocks.0.att.time_first"@, 0));
                match read_dim(model, "blocks.0.att.time_first", 0) {
                    DimRead::Of(n) => n,
                    DimRead::Short => return None,
                    DimRead::Failed(e) => return Some(Err(e)),
                }
            },
            ModelVersion::V7 => {
                assert(dims[0] == dim_of(model, "blocks.0.att.r_k"@, 0));
                match read_dim(model, "blocks.0.att.r_k", 0) {
                    DimRead::Of(n) => n,
                    DimRead::Short => return None,
                    DimRead::Failed(e) => return Some(Err(e)),
                }
            },
            _ => 1,
        };
        let custom = match version {
            ModelVersion::V6 => {
                assert(dims[1] == dim_of(model, "blocks.0.att.time_mix_w1"@, 0));
                let time_mix = match read_dim(model, "blocks.0.att.time_mix_w1", 0) {
                    DimRead::Of(n) => n / 5,
                    DimRead::Short => return None,
                    DimRead::Failed(e) => return Some(Err(e)),
                };
                assert(dims[2] == dim_of(model, "blocks.0.att.time_decay_w1"@, 0));
                let time_decay = match read_dim(model, "blocks.0.att.time_decay_w1", 0) {
                    DimRead::Of(n) => n,
                    DimRead::Short => return None,
                    DimRead::Failed(e) => return Some(Err(e)),
                };
                ModelCustomInfo::V6(V6Info { time_mix, time_decay })
            },
            ModelVersion::V7 => {
                assert(dims[1] == dim_of(model, "blocks.0.att.w1"@, 0));
                let w = match read_dim(model, "blocks.0.att.w1", 0) {
                    DimRead::Of(n) => n,
                    DimRead::Short => return None,
                    DimRead::Failed(e) => return Some(Err(e)),
                };
                assert(dims[2] == dim_of(model, "blocks.0.att.a1"@, 0));
                let a = match read_dim(model, "blocks.0.att.a1", 0) {
                    DimRead::Of(n) => n,
                    DimRead::Short => return None,
                    DimRead::Failed(e) => return Some(Err(e)),
                };
                assert(dims[3] == dim_of(model, "blocks.0.att.g1"@, 0));
                let g = match read_dim(model, "blocks.0.att.g1", 0) {
                    DimRead::Of(n) => n,
                    DimRead::Short => return None,
                    DimRead::Failed(e) => return Some(Err(e)),
                };
                assert(dims[4] == dim_of(model, "blocks.1.att.v1"@, 0));
                let v = match read_dim(model, "blocks.1.att.v1", 0) {
                    DimRead::Of(n) => n,
                    DimRead::Short => return None,
                    DimRead::Failed(e) => return Some(Err(e)),
                };
                ModelCustomInfo::V7(V7Info { w, a, g, v })
            },
            _ => ModelCustomInfo::Plain,
        };
        Some(
            Ok(
                ModelInfo {
                    version,
                    num_layer: top + 1,
                    num_emb: embed[1],
                    num_hidden: ffn[0],
                    num_vocab: embed[0],
                    num_head,
                    custom,
                },
            ),
        )
    }

    /// Reads what is known of a Brumby model (HuggingFace-style tensor naming).
    fn info_brumby(model: &R) -> (r: Option<Result<ModelInfo, LoaderError>>)
        ensures
            tells(model, r, brumby_outcome(model)),
    {
        let top = match find_top(model, "model.layers.") {
            Ok(top) => top,
            Err(e) => return Some(Err(e)),
        };
        if top == usize::MAX {
            return None;
        }
        let ghost emb = dim_of(model, "model.embed_tokens.weight"@, 1);
        let ghost hidden = dim_of(model, "model.layers.0.mlp.gate_proj.weight"@, 0);
        proof {
            lemma_first_fault(seq![emb, hidden]);
            assert(seq![emb, hidden][0] == emb && seq![emb, hidden][1] == hidden);
        }
        let embed = match model.shape("model.embed_tokens.weight") {
            Ok(shape) => shape,
            Err(e) => return Some(Err(LoaderError::SafeTensor(e))),
        };
        if embed.len() < 2 {
            return None;
        }
        let num_vocab = embed[0];
        let num_emb = embed[1];
        let intermediate_size = match read_dim(model, "model.layers.0.mlp.gate_proj.weight", 0) {
            DimRead::Of(n) => n,
            DimRead::Short => return None,
            DimRead::Failed(e) => return Some(Err(e)),
        };
        let q_shape = match model.shape("model.layers.0.self_attn.q_proj.weight") {
            Ok(shape) => shape,
            Err(e) => return Some(Err(LoaderError::SafeTensor(e))),
        };
        let k_shape = match model.shape("model.layers.0.self_attn.k_proj.weight") {
            Ok(shape) => shape,
            Err(e) => return Some(Err(LoaderError::SafeTensor(e))),
        };
        let ghost q = dim_of(model, "model.layers.0.self_attn.q_proj.weight"@, 0);
        let ghost k = dim_of(model, "model.layers.0.self_attn.k_proj.weight"@, 0);
        let ghost norm = dim_of(model, "model.layers.0.self_attn.q_norm.weight"@, 0);
        proof {
            lemma_first_fault(seq![norm, q, k]);
            assert(seq![norm, q, k][0] == norm && seq![norm, q, k][1] == q && seq![norm, q, k][2]
                == k);
        }
        let head_dim = match read_dim(model, "model.layers.0.self_attn.q_norm.weight", 0) {
            DimRead::Of(n) => n,
            DimRead::Short => return None,
            DimRead::Failed(e) => return Some(Err(e)),
        };
        if q_shape.len() < 1 || k_shape.len() < 1 || head_dim == 0 {
            return None;
        }
        let custom = CustomInfo {
            num_kv_head: k_shape[0] / head_dim,
            head_dim,
            intermediate_size,
            has_qk_norm: true,
            gated_ffn: true,
            hidden_act: Activation::Silu,
            rope_theta_bits: BRUMBY_ROPE_THETA_BITS,
            power_deg: 1,
        };
        Some(
            Ok(
                ModelInfo {
                    version: ModelVersion::Brumby,
                    num_layer: top + 1,
                    num_emb,
                    num_hidden: intermediate_size,
                    num_vocab,
                    num_head: q_shape[0] / head_dim,
                    custom: ModelCustomInfo::Brumby(custom),
                },
            ),
        )
    }

    /// Reads what is known of a PowerCoder model.
    fn info_powercoder(model: &R) -> (r: Option<Result<ModelInfo, LoaderError>>)
        ensures
            tells(model, r, powercoder_outcome(model)),
    {
        let top = match find_top(model, "model.layers.") {
            Ok(top) => top,
            Err(e) => return Some(Err(e)),
        };
        if top == usize::MAX {
            return None;
        }
        let ghost emb = dim_of(model, "model.embed_tokens.weight"@, 1);
        let ghost hidden = dim_of(model, "model.layers.0.mlp.c_fc.weight"@, 0);
        proof {
            lemma_first_fault(seq![emb, hidden]);
            assert(seq![emb, hidden][0] == emb && seq![emb, hidden][1] == hidden);
        }
        let embed = match model.shape("model.embed_tokens.weight") {
            Ok(shape) => shape,
            Err(e) => return Some(Err(LoaderError::SafeTensor(e))),
        };
        if embed.len() < 2 {
            return None;
        }
        let num_vocab = embed[0];
        let num_emb = embed[1];
        let intermediate_size = match read_dim(model, "model.layers.0.mlp.c_fc.weight", 0) {
            DimRead::Of(n) => n,
            DimRead::Short => return None,
            DimRead::Failed(e) => return Some(Err(e)),
        };
        let q_shape = match model.shape("model.layers.0.self_attn.q_proj.weight") {
            Ok(shape) => shape,
            Err(e) => return Some(Err(LoaderError::SafeTensor(e))),
        };
        let k_shape = match model.shape("model.layers.0.self_attn.k_proj.weight") {
            Ok(shape) => shape,
            Err(e) => return Some(Err(LoaderError::SafeTensor(e))),
        };
        let ghost q = dim_of(model, "model.layers.0.self_attn.q_proj.weight"@, 0);
        let ghost k = dim_of(model, "model.layers.0.self_attn.k_proj.weight"@, 0);
        let ghost gate = dim_of(model, "model.layers.0.self_attn.g_proj.weight"@, 0);
        proof {
            lemma_first_fault(seq![gate, k, q]);
            assert(seq![gate, k, q][0] == gate && seq![gate, k, q][1] == k && seq![gate, k, q][2]
                == q);
        }
        let num_kv_head = match read_dim(model, "model.layers.0.self_attn.g_proj.weight", 0) {
            DimRead::Of(n) => n,
            DimRead::Short => return None,
            DimRead::Failed(e) => return Some(Err(e)),
        };
        if k_shape.len() < 1 || q_shape.len() < 1 || num_kv_head == 0 {
            return None;
        }
        let head_dim = k_shape[0] / num_kv_head;
        if head_dim == 0 {
            return None;
        }
        let custom = CustomInfo {
            num_kv_head,
            head_dim,
            intermediate_size,
            has_qk_norm: false,
            gated_ffn: false,
            hidden_act: Activation::Gelu,
            rope_theta_bits: POWERCODER_ROPE_THETA_BITS,
            power_deg: 2,
        };
        Some(
            Ok(
                ModelInfo {
                    version: ModelVersion::Brumby,
                    num_layer: top + 1,
                    num_emb,
                    num_hidden: intermediate_size,
                    num_vocab,
                    num_head: q_shape[0] / head_dim,
                    custom: ModelCustomInfo::Brumby(custom),
                },
            ),
        )
    }
}

} // verus!
