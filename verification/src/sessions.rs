//! What sessions make of the tensors that are added.

use safetensors::SafeTensors;
use vstd::prelude::*;

use crate::runtime::archive::archive_in;
use crate::runtime::assembly::{
    end_list, flat_ends, is_made_of, layer_follows_names, layer_list, loaded, requests_view,
    BuildPlan, MatrixName, Request, RequestModel, Slot, VectorName,
};
use crate::runtime::brumby::{CustomInfo, Ffn, Model, ModelTensor};
use crate::runtime::info::{info_outcome, layer_index_of, tells, InfoOutcome};
use crate::runtime::model::{Activation, ModelInfo, ModelVersion, Quant};
use crate::runtime::naming::key_of;
use crate::runtime::placing::{ends_have_their_names, in_layer, names_are_those_of_parts};
use crate::runtime::reader::Reader;
use crate::text::{begins_with, decimal, decimal_round_trip, is_digit, lemma_first_index_is};
use crate::web::{
    activation_name, answer, archive_tensors, brumby_json, build_takes_what_was_added, chunk_of,
    fetch, fetch_groups, fetch_list, files_of, group_lists, has_all, is_session_over, item, least,
    names_missing, plans_session, quantized_lists, upload_of, version_name, wanted, Fetched,
    SessionError, Shelf, Stage, Upload, WasmSession, WasmSessionBuilder, PAD_VECTOR, PAD_WEIGHT,
};

verus! {

/// What a vector source gets from what was added.
spec fn given_vector<V, M, E>(shelf: Shelf<V, M, E>) -> spec_fn(VectorName) -> Fetched<V> {
    |name: VectorName|
        match name {
            VectorName::File(name) => Fetched::<V>::Given(shelf.vectors[name]),
            VectorName::Zeros => Fetched::Zeros,
        }
}

/// What a matrix source gets from what was added.
spec fn given_matrix<V, M, E>(shelf: Shelf<V, M, E>) -> spec_fn(MatrixName) -> M {
    |name: MatrixName|
        match name {
            MatrixName::Padded(name) | MatrixName::Stored(name, _) => shelf.matrices[name],
        }
}

/// What the embedding is.
spec fn given_embed<V, M, E>(shelf: Shelf<V, M, E>) -> spec_fn(Seq<char>) -> E {
    |name: Seq<char>| shelf.embed->Some_0
}

proof fn lemma_answers<V, M, E>(shelf: Shelf<V, M, E>, requests: Seq<RequestModel>)
    requires
        has_all(shelf, requests),
    ensures
        requests.map_values(|request: RequestModel| answer(shelf, request)) == requests.map_values(
            |request: RequestModel|
                loaded(request, given_vector(shelf), given_matrix(shelf), given_embed(shelf)),
        ),
{
    let a = requests.map_values(|request: RequestModel| answer(shelf, request));
    let b = requests.map_values(
        |request: RequestModel|
            loaded(request, given_vector(shelf), given_matrix(shelf), given_embed(shelf)),
    );
    assert forall|i: int| 0 <= i < requests.len() implies a[i] == b[i] by {
        let request = requests[i];
        assert(key_of(request) matches Some(key) ==> item(shelf, key) is Some);
        match request {
            Slot::Vector(VectorName::File(name)) => {},
            Slot::Vector(VectorName::Zeros) => {},
            Slot::Matrix(MatrixName::Padded(name)) => {},
            Slot::Matrix(MatrixName::Stored(name, q)) => {},
            Slot::Embed(name) => {},
        }
    }
    assert(a =~= b);
}

/// The layers of a model that a session builds are made of the tensors that were added
/// under the names of those layers, each in its own place.
pub proof fn session_layer_follows_names<V, M, E>(
    shelf: Shelf<V, M, E>,
    tensor: ModelTensor<Fetched<V>, M, E>,
    info: ModelInfo,
    custom: CustomInfo,
    layer: usize,
)
    requires
        fetch_groups(shelf, wanted(info, custom)) matches Ok((groups, _)) && is_made_of(
            tensor,
            groups,
            custom,
        ),
        layer < info.num_layer,
    ensures
        tensor.layers@.len() == info.num_layer,
        ({
            let own = tensor.layers@[layer as int];
            let bias = !custom.has_qk_norm;
            &&& own.input_ln.w == Fetched::<V>::Given(shelf.vectors[in_layer(layer, ".input_layernorm.weight"@)])
            &&& own.input_ln.b == if bias {
                Fetched::<V>::Given(shelf.vectors[in_layer(layer, ".input_layernorm.bias"@)])
            } else {
                Fetched::<V>::Zeros
            }
            &&& own.post_att_ln.w == Fetched::<V>::Given(shelf.vectors[in_layer(layer, ".post_attention_layernorm.weight"@)])
            &&& own.post_att_ln.b == if bias {
                Fetched::<V>::Given(shelf.vectors[in_layer(layer, ".post_attention_layernorm.bias"@)])
            } else {
                Fetched::<V>::Zeros
            }
            &&& own.att.q_proj == shelf.matrices[in_layer(layer, ".self_attn.q_proj.weight"@)]
            &&& own.att.k_proj == shelf.matrices[in_layer(layer, ".self_attn.k_proj.weight"@)]
            &&& own.att.v_proj == shelf.matrices[in_layer(layer, ".self_attn.v_proj.weight"@)]
            &&& own.att.o_proj == shelf.matrices[in_layer(layer, ".self_attn.o_proj.weight"@)]
            &&& own.att.g_proj == shelf.matrices[in_layer(layer, ".self_attn.g_proj.weight"@)]
            &&& own.att.q_bias == if bias {
                Some(Fetched::<V>::Given(shelf.vectors[in_layer(layer, ".self_attn.q_proj.bias"@)]))
            } else {
                None
            }
            &&& own.att.k_bias == if bias {
                Some(Fetched::<V>::Given(shelf.vectors[in_layer(layer, ".self_attn.k_proj.bias"@)]))
            } else {
                None
            }
            &&& own.att.v_bias == if bias {
                Some(Fetched::<V>::Given(shelf.vectors[in_layer(layer, ".self_attn.v_proj.bias"@)]))
            } else {
                None
            }
            &&& own.att.o_bias == if bias {
                Some(Fetched::<V>::Given(shelf.vectors[in_layer(layer, ".self_attn.o_proj.bias"@)]))
            } else {
                None
            }
            &&& own.att.g_bias == if bias {
                Some(Fetched::<V>::Given(shelf.vectors[in_layer(layer, ".self_attn.g_proj.bias"@)]))
            } else {
                None
            }
            &&& custom.has_qk_norm ==> (own.att.q_norm matches Some(norm) && norm.w == Fetched::<V>::Given(shelf.vectors[in_layer(layer, ".self_attn.q_norm.weight"@)])
                && norm.b == Fetched::<V>::Zeros)
            &&& !custom.has_qk_norm ==> own.att.q_norm is None
            &&& custom.has_qk_norm ==> (own.att.k_norm matches Some(norm) && norm.w == Fetched::<V>::Given(shelf.vectors[in_layer(layer, ".self_attn.k_norm.weight"@)])
                && norm.b == Fetched::<V>::Zeros)
            &&& !custom.has_qk_norm ==> own.att.k_norm is None
            &&& custom.gated_ffn ==> (own.ffn matches Ffn::Gated { gate_proj, up_proj, down_proj }
                && gate_proj == shelf.matrices[in_layer(layer, ".mlp.gate_proj.weight"@)] && up_proj == shelf.matrices[in_layer(layer, ".mlp.up_proj.weight"@)] && down_proj
                == shelf.matrices[in_layer(layer, ".mlp.down_proj.weight"@)])
            &&& !custom.gated_ffn ==> (own.ffn matches Ffn::Dense {
                c_fc,
                c_fc_bias,
                c_proj,
                c_proj_bias,
            } && c_fc == shelf.matrices[in_layer(layer, ".mlp.c_fc.weight"@)] && c_proj == shelf.matrices[in_layer(layer, ".mlp.c_proj.weight"@)] && c_fc_bias == (if bias {
                Some(Fetched::<V>::Given(shelf.vectors[in_layer(layer, ".mlp.c_fc.bias"@)]))
            } else {
                None
            }) && c_proj_bias == (if bias {
                Some(Fetched::<V>::Given(shelf.vectors[in_layer(layer, ".mlp.c_proj.bias"@)]))
            } else {
                None
            }))
        }),
{
    let groups = fetch_groups(shelf, wanted(info, custom))->Ok_0.0;
    let all = wanted(info, custom);
    let own = tensor.layers@[layer as int];
    let requests = layer_list(layer, custom, Quant::Fp16);
    build_takes_what_was_added(shelf, info, custom);
    assert(all[layer + 1] == requests);
    assert(has_all(shelf, all[layer + 1]));
    lemma_answers(shelf, requests);
    assert(groups[layer + 1] == requests.map_values(
        |request: RequestModel| answer(shelf, request),
    ));
    layer_follows_names::<Fetched<V>, M, E>(
        own,
        layer,
        custom,
        Quant::Fp16,
        given_vector(shelf),
        given_matrix(shelf),
        given_embed(shelf),
    );
    names_are_those_of_parts(layer, custom, Quant::Fp16);
}

/// The embedding and the head of a model that a session builds are the tensors that were
/// added under their names.
pub proof fn session_ends_follow_names<V, M, E>(
    shelf: Shelf<V, M, E>,
    tensor: ModelTensor<Fetched<V>, M, E>,
    info: ModelInfo,
    custom: CustomInfo,
)
    requires
        fetch_groups(shelf, wanted(info, custom)) matches Ok((groups, _)) && is_made_of(
            tensor,
            groups,
            custom,
        ),
    ensures
        shelf.embed == Some(tensor.embed.w),
        tensor.head.w == shelf.matrices["lm_head.weight"@],
        tensor.head.ln.w == Fetched::<V>::Given(shelf.vectors["model.norm.weight"@]),
        tensor.head.ln.b == if custom.has_qk_norm {
            Fetched::<V>::Zeros
        } else {
            Fetched::<V>::Given(shelf.vectors["model.norm.bias"@])
        },
{
    let groups = fetch_groups(shelf, wanted(info, custom))->Ok_0.0;
    let all = wanted(info, custom);
    let ends = flat_ends::<Fetched<V>, M, E>(tensor.embed, tensor.head);
    build_takes_what_was_added(shelf, info, custom);
    ends_have_their_names(custom);
    assert(all[0] == end_list(custom));
    assert(has_all(shelf, all[0]));
    assert(groups[0] == end_list(custom).map_values(
        |request: RequestModel| answer(shelf, request),
    ));
    let list = end_list(custom);
    assert(key_of(list[0]) matches Some(key) ==> item(shelf, key) is Some);
    assert(key_of(list[1]) matches Some(key) ==> item(shelf, key) is Some);
    assert(key_of(list[2]) matches Some(key) ==> item(shelf, key) is Some);
    assert(key_of(list[3]) matches Some(key) ==> item(shelf, key) is Some);
    assert(ends[0] == groups[0][0]);
    assert(ends[1] == groups[0][1]);
    assert(ends[2] == groups[0][2]);
    assert(ends[3] == groups[0][3]);
}

/// A tensor of a layer that has more than one dimension becomes a matrix, and is quantized
/// exactly where its layer is among the first that are.
pub proof fn layer_matrix_is_quantized_by_layer(
    layer: usize,
    rest: Seq<char>,
    dims: nat,
    quant_layers: u32,
)
    requires
        dims > 1,
    ensures
        upload_of(in_layer(layer, seq!['.'] + rest), dims, quant_layers) == (Upload::Matrix {
            quantize: layer < quant_layers,
        }),
{
    let prefix = "model.layers."@;
    let digits = decimal(layer as nat);
    let name = in_layer(layer, seq!['.'] + rest);
    let after = digits + seq!['.'] + rest;
    reveal_strlit("model.layers.");
    reveal_strlit("model.embed_tokens.weight");
    reveal_strlit("lm_head.weight");
    decimal_round_trip(layer as nat);
    assert(name.take(prefix.len() as int) =~= prefix);
    assert(name.skip(prefix.len() as int) =~= after);
    assert forall|i: int| 0 <= i < digits.len() implies after[i] != '.' by {
        assert(is_digit(digits[i]));
    }
    lemma_first_index_is(after, '.', digits.len() as int);
    assert(after.take(digits.len() as int) =~= digits);
    assert(layer_index_of(name, prefix) == Some(layer));
    assert(name[6] == 'l');
    assert(name[0] == 'm');
}

/// What becomes of the other tensors: the embedding stays in main memory, the matrix of the
/// head is not quantized, a tensor of at most one dimension becomes a vector, and a matrix
/// of no layer is not quantized.
pub proof fn other_tensors_are_not_quantized(name: Seq<char>, dims: nat, quant_layers: u32)
    ensures
        upload_of("model.embed_tokens.weight"@, dims, quant_layers) == Upload::Embed,
        upload_of("lm_head.weight"@, dims, quant_layers) == Upload::Head,
        name != "model.embed_tokens.weight"@ && name != "lm_head.weight"@ && dims <= 1 ==> upload_of(
            name,
            dims,
            quant_layers,
        ) == Upload::Vector,
        name != "model.embed_tokens.weight"@ && name != "lm_head.weight"@ && dims > 1
            && !begins_with(name, "model.layers."@) ==> upload_of(name, dims, quant_layers) == (
        Upload::Matrix { quantize: false }),
{
    reveal_strlit("model.embed_tokens.weight");
    reveal_strlit("lm_head.weight");
    assert("model.embed_tokens.weight"@ != "lm_head.weight"@) by {
        assert("model.embed_tokens.weight"@.len() != "lm_head.weight"@.len());
    }
}

/// What sizes are padded to while tensors are added.
pub proof fn added_tensors_are_padded_by_fours()
    ensures
        PAD_VECTOR@ == seq![4usize, 1, 1, 1],
        PAD_WEIGHT@ == seq![4usize, 4, 1, 1],
        crate::runtime::loader::PAD_VEC@ == seq![8usize, 1, 1, 1],
        crate::runtime::loader::PAD_MAT@ == seq![8usize, 8, 1, 1],
{
    assert(PAD_VECTOR@ =~= seq![4usize, 1, 1, 1]);
    assert(PAD_WEIGHT@ =~= seq![4usize, 4, 1, 1]);
    assert(crate::runtime::loader::PAD_VEC@ =~= seq![8usize, 1, 1, 1]);
    assert(crate::runtime::loader::PAD_MAT@ =~= seq![8usize, 8, 1, 1]);
}

/// Inputs are chunked by the number that was asked for, but by 32 at least.
pub proof fn chunks_have_a_least_size(size: u32)
    ensures
        chunk_of(size) >= 32,
        chunk_of(size) >= size,
        chunk_of(size) == 32 || chunk_of(size) == size,
{
}

/// The requests for a model in a file: the first layers are quantized to 8 bits, as many as
/// are asked for, and the others are not.
pub proof fn first_layers_are_quantized(
    info: ModelInfo,
    custom: CustomInfo,
    quant_layers: u32,
    layer: usize,
)
    requires
        layer < info.num_layer,
    ensures
        quantized_lists(info, custom, quant_layers).len() == info.num_layer + 1,
        quantized_lists(info, custom, quant_layers)[0] == end_list(custom),
        layer < quant_layers ==> quantized_lists(info, custom, quant_layers)[layer + 1]
            == layer_list(layer, custom, Quant::Int8),
        layer >= quant_layers ==> quantized_lists(info, custom, quant_layers)[layer + 1]
            == layer_list(layer, custom, Quant::Fp16),
{
}

/// A tensor is in the last file that a weight map gives for it.
pub proof fn last_file_has_the_tensor(weights: Seq<(Seq<char>, Seq<char>)>, i: int)
    requires
        0 <= i < weights.len(),
        forall|j: int| i < j < weights.len() ==> (#[trigger] weights[j]).0 != weights[i].0,
    ensures
        files_of(weights).contains_key(weights[i].0),
        files_of(weights)[weights[i].0] == weights[i].1,
    decreases weights.len(),
{
    let before = weights.drop_last();
    if i < before.len() {
        assert(before[i] == weights[i]);
        assert forall|j: int| i < j < before.len() implies (#[trigger] before[j]).0
            != before[i].0 by {
            assert(weights[j].0 != weights[i].0);
        }
        last_file_has_the_tensor(before, i);
        assert(weights[weights.len() - 1].0 != weights[i].0);
    }
}

/// A tensor that a weight map does not name is in no file.
pub proof fn unnamed_tensor_has_no_file(weights: Seq<(Seq<char>, Seq<char>)>, name: Seq<char>)
    requires
        forall|i: int| 0 <= i < weights.len() ==> (#[trigger] weights[i]).0 != name,
    ensures
        !files_of(weights).contains_key(name),
    decreases weights.len(),
{
    if weights.len() > 0 {
        let before = weights.drop_last();
        assert forall|i: int| 0 <= i < before.len() implies (#[trigger] before[i]).0 != name by {
            assert(weights[i].0 != name);
        }
        unnamed_tensor_has_no_file(before, name);
        assert(weights[weights.len() - 1].0 != name);
    }
}

/// The JSON text of what is known of a model: every field has its own value.
pub proof fn json_has_every_field(info: ModelInfo, custom: CustomInfo, theta: Seq<char>)
    ensures
        brumby_json(info, custom, theta) == "{\"version\":\""@ + version_name(info.version)
            + "\""@ + (",\"num_layer\":"@ + decimal(info.num_layer as nat)) + (
        ",\"num_emb\":"@ + decimal(info.num_emb as nat)) + (",\"num_hidden\":"@ + decimal(
            info.num_hidden as nat,
        )) + (",\"num_vocab\":"@ + decimal(info.num_vocab as nat)) + (",\"num_head\":"@
            + decimal(info.num_head as nat)) + (",\"num_kv_head\":"@ + decimal(
            custom.num_kv_head as nat,
        )) + (",\"head_dim\":"@ + decimal(custom.head_dim as nat)) + (
        ",\"intermediate_size\":"@ + decimal(custom.intermediate_size as nat))
            + ",\"has_qk_norm\":"@ + (if custom.has_qk_norm {
            "true"@
        } else {
            "false"@
        }) + ",\"gated_ffn\":"@ + (if custom.gated_ffn {
            "true"@
        } else {
            "false"@
        }) + ",\"hidden_act\":\""@ + activation_name(custom.hidden_act)
            + "\",\"rope_theta\":"@ + theta + "}"@,
{
}

/// The names of versions and of activation functions.
pub proof fn names_in_json()
    ensures
        version_name(ModelVersion::V4) == "V4"@,
        version_name(ModelVersion::V5) == "V5"@,
        version_name(ModelVersion::V6) == "V6"@,
        version_name(ModelVersion::V7) == "V7"@,
        version_name(ModelVersion::Brumby) == "Brumby"@,
        activation_name(Activation::Identity) == "None"@,
        activation_name(Activation::Silu) == "Silu"@,
        activation_name(Activation::Gelu) == "Gelu"@,
        activation_name(Activation::OppositeExp) == "OppositeExp"@,
        activation_name(Activation::StableExp) == "StableExp"@,
{
}

/// What is said of each error.
pub proof fn errors_say(name: String, file: String)
    ensures
        SessionError::NotPrepared(Stage::AddShard).says() == "call prepare() before add_shard()"@,
        SessionError::NotPrepared(Stage::AddTensor).says() == "call prepare() before add_tensor()"@,
        SessionError::NotPrepared(Stage::Flush).says() == "call prepare() before flush()"@,
        SessionError::NotPrepared(Stage::Build).says() == "call prepare() before build()"@,
        (SessionError::MissingInShard { tensor: name, shard: file }).says() == "Missing tensor "@
            + name@ + " in shard "@ + file@ + ": "@,
        SessionError::UnknownDtype(name).says() == "Unknown dtype: "@ + name@,
        SessionError::NotBrumby.says() == "Expected Brumby/PowerCoder model"@,
        SessionError::MissingEmbed.says() == "missing model.embed_tokens.weight"@,
        SessionError::MissingVector(name).says() == "missing vector tensor: "@ + name@,
        SessionError::MissingMatrix(name).says() == "missing matrix tensor: "@ + name@,
        SessionError::LayerOutOfBounds.says() == "layer index out of bounds"@,
{
}

/// A session that was built has the context and the metadata that it was built with, chunks
/// of 32 tokens at least, and the default numbers of layers.
pub proof fn built_session_keeps_what_was_given<C, V, M, E>(
    builder: WasmSessionBuilder<C, V, M, E>,
    session: WasmSession<C, Model<Fetched<V>, M, E>>,
)
    requires
        builder.builds(Ok(session)),
    ensures
        builder.context == Some(session.context),
        builder.outcome() == InfoOutcome::Info(session.info),
        session.info.custom is Brumby,
        session.num_vocab == session.info.num_vocab,
        session.token_chunk_size == if builder.token_chunk_size < 32 {
            32
        } else {
            builder.token_chunk_size as int
        },
        session.runtime.info == session.info,
        session.runtime.rescale == usize::MAX,
        session.runtime.sep == 1024,
        fetch_groups(
            builder.shelf(),
            wanted(session.info, session.info.custom->Brumby_0),
        ) matches Ok((groups, _)) && is_made_of(
            session.runtime.tensor,
            groups,
            session.info.custom->Brumby_0,
        ),
{
}

/// A session over a file has the metadata that its tensors give, chunks of 32 tokens at
/// least, the default numbers of layers, and no LoRA.
pub proof fn planned_session_keeps_what_was_given<R: Reader>(
    session: WasmSession<(), BuildPlan<R>>,
    model: R,
    token_chunk_size: u32,
    quant_layers: u32,
)
    requires
        plans_session(Ok(session), model, token_chunk_size, quant_layers),
    ensures
        info_outcome(&model) == InfoOutcome::Info(session.info),
        session.num_vocab == session.info.num_vocab,
        session.token_chunk_size == if token_chunk_size < 32 {
            32
        } else {
            token_chunk_size as int
        },
        session.runtime.info == session.info,
        session.runtime.rescale == usize::MAX,
        session.runtime.sep == 1024,
        session.runtime.loader.model == model,
        session.runtime.loader.lora@.len() == 0,
{
}

/// Taking a tensor that was added gives it, and leaves all others; one that was not added
/// cannot be taken.
pub proof fn taking_leaves_the_others<V, M, E>(shelf: Shelf<V, M, E>, name: Seq<char>)
    ensures
        fetch(shelf, Slot::Vector(VectorName::File(name))) is Some <==> shelf.vectors.contains_key(
            name,
        ),
        fetch(shelf, Slot::Vector(VectorName::File(name))) matches Some((slot, rest)) ==> {
            &&& slot == Slot::<Fetched<V>, M, E>::Vector(Fetched::Given(shelf.vectors[name]))
            &&& rest.vectors == shelf.vectors.remove(name)
            &&& rest.matrices == shelf.matrices
            &&& rest.embed == shelf.embed
        },
        fetch(shelf, Slot::Matrix(MatrixName::Padded(name))) is Some
            <==> shelf.matrices.contains_key(name),
        fetch(shelf, Slot::Matrix(MatrixName::Padded(name))) matches Some((slot, rest)) ==> {
            &&& slot == Slot::<Fetched<V>, M, E>::Matrix(shelf.matrices[name])
            &&& rest.matrices == shelf.matrices.remove(name)
            &&& rest.vectors == shelf.vectors
            &&& rest.embed == shelf.embed
        },
        fetch(shelf, Slot::Embed(name)) is Some <==> shelf.embed is Some,
        fetch(shelf, Slot::Embed(name)) matches Some((slot, rest)) ==> {
            &&& slot == Slot::<Fetched<V>, M, E>::Embed(shelf.embed->Some_0)
            &&& rest.embed is None
            &&& rest.vectors == shelf.vectors
            &&& rest.matrices == shelf.matrices
        },
{
}

/// The error for a missing tensor says its kind and its name.
pub proof fn missing_tensor_is_named(e: SessionError, name: Seq<char>, quant: Quant)
    ensures
        names_missing(e, Slot::Vector(VectorName::File(name))) <==> (e
            matches SessionError::MissingVector(n) && n@ == name),
        names_missing(e, Slot::Matrix(MatrixName::Padded(name))) <==> (e
            matches SessionError::MissingMatrix(n) && n@ == name),
        names_missing(e, Slot::Matrix(MatrixName::Stored(name, quant))) <==> (e
            matches SessionError::MissingMatrix(n) && n@ == name),
        names_missing(e, Slot::Embed(name)) <==> e == SessionError::MissingEmbed,
{
}

/// The first request whose tensor was not added is the one that is told: those before it
/// were served.
pub proof fn first_missing_tensor_is_told<V, M, E>(
    shelf: Shelf<V, M, E>,
    requests: Seq<RequestModel>,
) -> (i: int)
    requires
        fetch_list(shelf, requests) is Err,
    ensures
        0 <= i < requests.len(),
        fetch_list(shelf, requests)->Err_0 == requests[i],
        fetch_list(shelf, requests.take(i)) matches Ok((_, rest)) && fetch(
            rest,
            requests[i],
        ) is None,
    decreases requests.len(),
{
    let before = requests.drop_last();
    if fetch_list(shelf, before) is Err {
        let i = first_missing_tensor_is_told(shelf, before);
        assert(before.take(i) =~= requests.take(i));
        i
    } else {
        assert(requests.take(requests.len() - 1) =~= before);
        requests.len() - 1
    }
}

/// The smaller of two numbers is one of them, and no larger than the other.
pub proof fn least_is_smaller(a: int, b: int)
    ensures
        least(a, b) <= a,
        least(a, b) <= b,
        least(a, b) == a || least(a, b) == b,
{
}

/// What is kept where the index of a builder is: the files of the tensors, which layers are
/// quantized and how many tokens are run at once.
pub proof fn index_is_kept<C, V, M, E>(
    after: WasmSessionBuilder<C, V, M, E>,
    before: WasmSessionBuilder<C, V, M, E>,
)
    requires
        after.same_index(&before),
    ensures
        after.files() == before.files(),
        after.weight_map == before.weight_map,
        after.quant_layers == before.quant_layers,
        after.token_chunk_size == before.token_chunk_size,
{
}

/// The metadata of a model in the making has the names of the weight map, and the shapes of
/// the tensors that were added, but none of their data.
pub proof fn metadata_are_names_and_shapes<C, V, M, E>(
    builder: WasmSessionBuilder<C, V, M, E>,
    name: Seq<char>,
)
    ensures
        builder.metadata().has(name) <==> builder.files().contains_key(name),
        builder.metadata().shape_of(name) is Some <==> builder.shapes().contains_key(name),
        builder.shapes().contains_key(name) ==> builder.metadata().shape_of(name) == Some(
            builder.shapes()[name],
        ),
        builder.metadata().tensor_of(name) is None,
        builder.outcome() == info_outcome(&builder.metadata()),
{
}

/// The tensors of a shard are those of its archive.
pub proof fn shard_has_its_tensors(bytes: Seq<u8>, name: Seq<char>)
    requires
        archive_in(bytes) is Some,
    ensures
        archive_tensors(bytes).contains_key(name) <==> archive_in(bytes)->Some_0.contains_key(name),
        archive_tensors(bytes).contains_key(name) ==> archive_tensors(bytes)[name].shape
            == archive_in(bytes)->Some_0[name].shape && archive_tensors(bytes)[name].data
            == archive_in(bytes)->Some_0[name].data,
{
}

/// An archive gives no session exactly where its shapes make no sense or it is no
/// power-retention model; it is refused where its tensors do not describe a model.
pub proof fn archive_gives_a_session<'a>(
    r: Option<Result<WasmSession<(), BuildPlan<SafeTensors<'a>>>, SessionError>>,
    model: SafeTensors<'a>,
    token_chunk_size: u32,
    quant_layers: u32,
)
    requires
        is_session_over(r, model, token_chunk_size, quant_layers),
    ensures
        info_outcome(&model) matches InfoOutcome::Info(info) ==> (r is None <==> info.custom
            !is Brumby),
        info_outcome(&model) !is Info ==> (r is None <==> info_outcome(&model) is Nonsense),
        r matches Some(Ok(session)) ==> session.runtime.loader.model == model && session.info
            == session.runtime.info && info_outcome(&model) == InfoOutcome::Info(session.info)
            && group_lists(session.runtime.requests@) == quantized_lists(
            session.info,
            session.runtime.custom,
            quant_layers,
        ),
        r matches Some(Err(e)) ==> (e matches SessionError::Info(e) && tells(
            &model,
            Some(Err(e)),
            info_outcome(&model),
        )),
{
}

/// Groups of requests are as they were made, in order.
pub proof fn groups_are_in_order(groups: Seq<Vec<Request>>, i: int)
    requires
        0 <= i < groups.len(),
    ensures
        group_lists(groups).len() == groups.len(),
        group_lists(groups)[i] == requests_view(groups[i]@),
{
}

} // verus!
