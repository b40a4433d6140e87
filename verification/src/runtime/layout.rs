//! How states, buffers and stored tensors are laid out.

use vstd::prelude::*;

use super::archive::StoredTensor;
use super::assembly::{is_request_list, BuildPlan, ModelBuilder};
use super::brumby::{Header, Runtime};
use super::bundle::has_buffers;
use super::convert::{big_endian, little_endian};
use super::job::{all_in_output, is_in_table, row_of, token_count, Row, Token};
use super::model::{ModelCustomInfo, ModelInfo};
use super::reader::{file_index, tensor_model, Dtype, Reader, ShardFile};
use super::state::{has_state, head_rows, planes_of, whole_shape};

verus! {

/// The shape of a whole state: for each layer a row for each element of a head, and one
/// more.
pub proof fn state_has_a_plane_for_each_layer(info: ModelInfo)
    requires
        has_state(info),
    ensures
        whole_shape(info)[0] == info.num_emb,
        whole_shape(info)[1] == info.num_emb as int / info.num_head as int + 1,
        whole_shape(info)[2] == info.num_layer,
        whole_shape(info)[3] == 1,
        head_rows(info) == info.num_emb as int / info.num_head as int,
{
    vstd::arithmetic::div_mod::lemma_div_pos_is_pos(info.num_emb as int, info.num_head as int);
}

/// The planes of a batch are one of each layer, in the order of the layers.
pub proof fn planes_are_of_one_batch(num_layer: nat, batch: usize, layer: int)
    requires
        0 <= layer < num_layer <= usize::MAX,
    ensures
        planes_of(num_layer, batch).len() == num_layer,
        planes_of(num_layer, batch)[layer].layer == layer,
        planes_of(num_layer, batch)[layer].batch == batch,
{
}

/// The buffers of an inference: those that are copied to or added to one another have the
/// same shape, keys and values have room for their heads, there is a gate for each head
/// that has one, and the network has room for its hidden elements. Each has a row for each
/// token.
pub proof fn buffers_have_room(info: ModelInfo, num_token: usize)
    requires
        has_buffers(info),
    ensures
        ({
            let custom = info.custom->Brumby_0;
            let b = Runtime::shapes(info, num_token);
            &&& b.cursors@ == seq![num_token, 1, 1, 1]
            &&& b.x@ == seq![info.num_emb, num_token, 1, 1]
            &&& b.input@ == b.x@
            &&& b.att_x@ == b.x@
            &&& b.att_q@ == b.x@
            &&& b.att_o@ == b.x@
            &&& b.ffn_x@ == b.x@
            &&& b.ffn_down@ == b.x@
            &&& b.att_k[0] == custom.num_kv_head * custom.head_dim
            &&& b.att_k@.skip(1) == seq![num_token, 1, 1]
            &&& b.att_v@ == b.att_k@
            &&& b.att_g@ == seq![
                if custom.has_qk_norm {
                    info.num_head
                } else {
                    custom.num_kv_head
                },
                num_token,
                1,
                1,
            ]
            &&& b.ffn_gate@ == seq![custom.intermediate_size, num_token, 1, 1]
            &&& b.ffn_up@ == b.ffn_gate@
        }),
{
    let custom = info.custom->Brumby_0;
    let b = Runtime::shapes(info, num_token);
    assert(b.cursors@ =~= seq![num_token, 1, 1, 1]);
    assert(b.x@ =~= seq![info.num_emb, num_token, 1, 1]);
    assert(b.att_k@.skip(1) =~= seq![num_token, 1, 1]);
    assert(b.att_g@ =~= seq![
        if custom.has_qk_norm {
            info.num_head
        } else {
            custom.num_kv_head
        },
        num_token,
        1,
        1,
    ]);
    assert(b.ffn_gate@ =~= seq![custom.intermediate_size, num_token, 1, 1]);
}

/// The output of the head has room for the vocabulary, rounded up to a multiple of eight.
pub proof fn output_has_room_for_vocabulary(info: ModelInfo, num_header: usize)
    requires
        has_buffers(info),
    ensures
        ({
            let b = Header::shapes(info, num_header);
            &&& b.head_x@ == seq![info.num_emb, num_header, 1, 1]
            &&& b.head_o@.skip(1) == seq![num_header, 1, 1]
            &&& b.head_o[0] % 8 == 0
            &&& info.num_vocab <= b.head_o[0] < info.num_vocab + 8
        }),
{
    let b = Header::shapes(info, num_header);
    assert(b.head_x@ =~= seq![info.num_emb, num_header, 1, 1]);
    assert(b.head_o@.skip(1) =~= seq![num_header, 1, 1]);
    assert(info.padded_vocab() == (info.num_vocab + 7) / 8 * 8);
}

/// The rows of the embedding table lie one after the other, one for each token.
pub proof fn rows_of_tokens_lie_in_order<T>(token: u32, num_emb: usize, table_len: usize)
    requires
        is_in_table(Token::<T>::Token(token), num_emb, table_len),
    ensures
        row_of(&Token::<T>::Token(token), num_emb) matches Row::Table { start, end } && start
            == num_emb * token && end == start + num_emb && end <= table_len,
{
    assert(num_emb * token >= 0) by (nonlinear_arith);
}

/// An embedding that is given is taken as it is, whatever the table.
pub proof fn given_embedding_is_taken<T>(given: T, num_emb: usize, table_len: usize)
    ensures
        is_in_table(Token::Embed(given), num_emb, table_len),
        row_of(&Token::Embed(given), num_emb) matches Row::Given(g) && *g == given,
{
}

/// A token is in a table exactly where its whole row is.
pub proof fn token_in_table_has_whole_row<T>(token: u32, num_emb: usize, table_len: usize)
    ensures
        is_in_table(Token::<T>::Token(token), num_emb, table_len) <==> (token + 1) * num_emb
            <= table_len,
{
    assert((token + 1) * num_emb == num_emb * token + num_emb) by (nonlinear_arith);
}

/// Batches have as many tokens as they have together.
pub proof fn tokens_are_counted<T>(batches: Seq<Vec<Token<T>>>, more: Vec<Token<T>>)
    ensures
        token_count(Seq::<Vec<Token<T>>>::empty()) == 0,
        token_count(batches.push(more)) == token_count(batches) + more@.len(),
{
    assert(batches.push(more).drop_last() =~= batches);
}

/// Two and four bytes as numbers.
pub proof fn bytes_are_digits(data: Seq<u8>, at: int)
    ensures
        little_endian(data, at, 2) == data[at] + 256 * data[at + 1],
        big_endian(data, at, 2) == 256 * data[at] + data[at + 1],
        little_endian(data, at, 4) == data[at] + 256 * (data[at + 1] + 256 * (data[at + 2] + 256
            * data[at + 3])),
        big_endian(data, at, 4) == data[at + 3] + 256 * (data[at + 2] + 256 * (data[at + 1] + 256
            * data[at])),
{
    reveal_with_fuel(little_endian, 5);
    reveal_with_fuel(big_endian, 5);
}

/// A number by which the names of data types are told apart.
spec fn name_code(name: Seq<char>) -> int {
    name.len() + 10 * (name[0] as int + 256 * (name[1] as int + 256 * (if name.len() > 4 {
        name[4] as int
    } else {
        0
    })))
}

proof fn lemma_name_codes()
    ensures
        name_code("BOOL"@) == 202904,
        name_code("F4"@) == 133822,
        name_code("F6_E2M3"@) == 32906947,
        name_code("F6_E3M2"@) == 33562307,
        name_code("U8"@) == 144212,
        name_code("I8"@) == 144092,
        name_code("F8_E5M2"@) == 34878147,
        name_code("F8_E4M3"@) == 34222787,
        name_code("F8_E8M0"@) == 36844227,
        name_code("I16"@) == 126173,
        name_code("U16"@) == 126293,
        name_code("F16"@) == 126143,
        name_code("BF16"@) == 179864,
        name_code("I32"@) == 131293,
        name_code("U32"@) == 131413,
        name_code("F32"@) == 131263,
        name_code("F64"@) == 138943,
        name_code("I64"@) == 138973,
        name_code("U64"@) == 139093,
{
    reveal_strlit("BOOL");
    reveal_strlit("F4");
    reveal_strlit("F6_E2M3");
    reveal_strlit("F6_E3M2");
    reveal_strlit("U8");
    reveal_strlit("I8");
    reveal_strlit("F8_E5M2");
    reveal_strlit("F8_E4M3");
    reveal_strlit("F8_E8M0");
    reveal_strlit("I16");
    reveal_strlit("U16");
    reveal_strlit("F16");
    reveal_strlit("BF16");
    reveal_strlit("I32");
    reveal_strlit("U32");
    reveal_strlit("F32");
    reveal_strlit("F64");
    reveal_strlit("I64");
    reveal_strlit("U64");
}

/// The names of the data types that tensors can be given with.
pub proof fn data_types_by_name()
    ensures
        Dtype::named("F16"@) == Some(Dtype::F16),
        Dtype::named("F32"@) == Some(Dtype::F32),
        Dtype::named("BF16"@) == Some(Dtype::BF16),
        Dtype::named("I32"@) == Some(Dtype::I32),
        Dtype::named("I64"@) == Some(Dtype::I64),
        Dtype::named("U8"@) == Some(Dtype::U8),
        Dtype::named("U16"@) == Some(Dtype::U16),
        Dtype::named("U32"@) == Some(Dtype::U32),
        Dtype::named("I8"@) == Some(Dtype::I8),
        Dtype::named("I16"@) == Some(Dtype::I16),
        Dtype::named("BOOL"@) is None,
        Dtype::named("F4"@) is None,
        Dtype::named("F6_E2M3"@) is None,
        Dtype::named("F6_E3M2"@) is None,
        Dtype::named("F8_E5M2"@) is None,
        Dtype::named("F8_E4M3"@) is None,
        Dtype::named("F8_E8M0"@) is None,
        Dtype::named("F64"@) is None,
        Dtype::named("U64"@) is None,
{
    lemma_name_codes();
}

/// The names of the data types of stored tensors.
pub proof fn stored_data_types_by_name()
    ensures
        Dtype::stored("BOOL"@) == Dtype::Bool,
        Dtype::stored("F4"@) == Dtype::F4,
        Dtype::stored("F6_E2M3"@) == Dtype::F6E2M3,
        Dtype::stored("F6_E3M2"@) == Dtype::F6E3M2,
        Dtype::stored("U8"@) == Dtype::U8,
        Dtype::stored("I8"@) == Dtype::I8,
        Dtype::stored("F8_E5M2"@) == Dtype::F8E5M2,
        Dtype::stored("F8_E4M3"@) == Dtype::F8E4M3,
        Dtype::stored("F8_E8M0"@) == Dtype::F8E8M0,
        Dtype::stored("I16"@) == Dtype::I16,
        Dtype::stored("U16"@) == Dtype::U16,
        Dtype::stored("F16"@) == Dtype::F16,
        Dtype::stored("BF16"@) == Dtype::BF16,
        Dtype::stored("I32"@) == Dtype::I32,
        Dtype::stored("U32"@) == Dtype::U32,
        Dtype::stored("F32"@) == Dtype::F32,
        Dtype::stored("F64"@) == Dtype::F64,
        Dtype::stored("I64"@) == Dtype::I64,
        Dtype::stored("U64"@) == Dtype::U64,
{
    data_types_by_name();
    lemma_name_codes();
}

/// A stored tensor is read as it is stored.
pub proof fn stored_tensor_is_read_as_it_is(stored: StoredTensor)
    ensures
        tensor_model(stored).shape == stored.shape,
        tensor_model(stored).data == stored.data,
        tensor_model(stored).dtype == Dtype::stored(stored.dtype),
{
}

/// The place of a file is that of the last with its name.
pub proof fn last_file_with_name_is_found(files: Seq<ShardFile>, i: int)
    requires
        files.len() <= usize::MAX,
        0 <= i < files.len(),
        forall|j: int| i < j < files.len() ==> (#[trigger] files[j]).0 != files[i].0,
    ensures
        file_index(files, files[i].0) == Some(i as usize),
    decreases files.len(),
{
    let before = files.drop_last();
    if i < before.len() {
        assert(before[i] == files[i]);
        assert forall|j: int| i < j < before.len() implies (#[trigger] before[j]).0
            != before[i].0 by {
            assert(files[j].0 != files[i].0);
        }
        last_file_with_name_is_found(before, i);
        assert(files[files.len() - 1].0 != files[i].0);
    }
}

/// A plan keeps what the builder was given: the model, the LoRAs, and how often the hidden
/// values are halved and layers submitted; unless that is set, by 1024 layers, and never.
pub proof fn plan_keeps_what_was_given<R: Reader>(
    plan: BuildPlan<R>,
    builder: ModelBuilder<R>,
    info: ModelInfo,
)
    requires
        plan.is_plan_of(builder, info),
    ensures
        plan.info == info,
        info.custom == ModelCustomInfo::Brumby(plan.custom),
        plan.loader.model == builder.model,
        plan.loader.lora == builder.lora,
        builder.rescale matches Some(rescale) ==> plan.rescale == rescale,
        builder.rescale is None ==> plan.rescale == usize::MAX,
        builder.sep matches Some(sep) ==> plan.sep == sep,
        builder.sep is None ==> plan.sep == 1024,
        is_request_list(plan.requests@, info, plan.custom, builder.quant@),
{
}

/// Rows of an output are in it exactly where they begin before they end, and all their
/// elements are there.
pub proof fn rows_are_in_output(len: nat, width: usize, start: usize, end: usize)
    ensures
        all_in_output(len, width, seq![(start, end)]) <==> start <= end && width * end <= len,
{
    let one = seq![(start, end)];
    assert(one[0] == (start, end));
}

} // verus!
