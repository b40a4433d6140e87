//! What plain values say of the data that they stand for, and what is read where.

use safetensors::SafeTensors;
use std::borrow::Cow;
use vstd::prelude::*;
use vstd::utf8::*;

use super::archive::{archive_in, declared_end, is_countable, opens, stored_tensors};
use super::assembly::{
    groups_view, request_view, requests_view, MatrixName, MatrixSource, ModelBuilder, Request,
    RequestModel, Slot, VectorName, VectorSource,
};
use super::convert::{is_whole, little_endian, reads_as_u16, reads_as_u32};
use super::info::{info_outcome, InfoOutcome};
use super::job::{all_in_table, is_in_table, Token};
use super::loader::{ops_view, LoadOp, LoadPlan, OpModel};
use super::lora::{LoraMatrix, LoraVector};
use super::reader::{
    all_open, all_routed, file_index, files_view, weights_view, Dtype, Reader, ReaderError,
    ReaderTensor, ShardFile, ShardedSafeTensors, TensorModel,
};
use super::state::Reset;

verus! {

/// A tensor that was read has its data type, its shape and its bytes, borrowed or owned.
pub proof fn tensor_is_as_it_was_read(tensor: ReaderTensor<'_>)
    ensures
        tensor@.dtype == tensor.dtype,
        tensor@.shape == tensor.shape@,
        tensor.data matches Cow::Borrowed(bytes) ==> tensor@.data == bytes@,
        tensor.data matches Cow::Owned(bytes) ==> tensor@.data == bytes@,
{
}

/// An operation on a tensor that is loaded has the factors and tensors that it was made
/// with, each in its place.
pub proof fn operation_is_as_it_was_made(op: LoadOp<'_>)
    ensures
        op matches LoadOp::Blend { factor, tensor } ==> op@ == (OpModel::Blend {
            factor,
            tensor: tensor@,
        }),
        op matches LoadOp::BlendLora { factor, x, y } ==> op@ == (OpModel::BlendLora {
            factor,
            x: x@,
            y: y@,
        }),
        op matches LoadOp::Activate(act) ==> op@ == OpModel::Activate(act),
        op is Blit ==> op@ == OpModel::Blit,
{
}

/// A plan has its source, what becomes of it first, and its operations in order.
pub proof fn plan_is_as_it_was_made(plan: LoadPlan<'_>)
    ensures
        plan@.source == plan.source@,
        plan@.prepare == plan.prepare,
        plan@.ops == ops_view(plan.ops@),
        ops_view(plan.ops@).len() == plan.ops@.len(),
        forall|i: int| 0 <= i < plan.ops@.len() ==> #[trigger] plan@.ops[i] == plan.ops@[i]@,
{
}

/// What a LoRA blends is what was found in it.
pub proof fn blend_is_as_it_was_found(vector: LoraVector<'_>, matrix: LoraMatrix<'_>)
    ensures
        vector@.tensor == vector.tensor@,
        vector@.alpha == vector.alpha,
        matrix@.x == matrix.x@,
        matrix@.y == matrix.y@,
        matrix@.rank == matrix.rank,
        matrix@.alpha == matrix.alpha,
{
}

/// What starts a conversation anew is as it was made.
pub proof fn reset_is_as_it_was_made(reset: Reset)
    ensures
        reset@.shape == reset.shape@,
        reset@.planes == reset.planes@,
        reset@.fill == reset.fill,
        reset@.rope_position == reset.rope_position,
{
}

/// A request names the tensor that it asks for.
pub proof fn request_names_its_tensor(request: Request)
    ensures
        request matches Slot::Vector(VectorSource::File(name)) ==> request_view(request)
            == RequestModel::Vector(VectorName::File(name@)),
        request matches Slot::Vector(VectorSource::Zeros) ==> request_view(request)
            == RequestModel::Vector(VectorName::Zeros),
        request matches Slot::Matrix(MatrixSource::Padded(name)) ==> request_view(request)
            == RequestModel::Matrix(MatrixName::Padded(name@)),
        request matches Slot::Matrix(MatrixSource::Stored(name, quant)) ==> request_view(request)
            == RequestModel::Matrix(MatrixName::Stored(name@, quant)),
        request matches Slot::Embed(name) ==> request_view(request) == RequestModel::Embed(name@),
{
}

/// Requests and groups are in order.
pub proof fn requests_are_in_order<T>(requests: Seq<Request>, groups: Seq<Vec<T>>)
    ensures
        requests_view(requests).len() == requests.len(),
        forall|i: int|
            0 <= i < requests.len() ==> #[trigger] requests_view(requests)[i] == request_view(
                requests[i],
            ),
        groups_view(groups).len() == groups.len(),
        forall|i: int| 0 <= i < groups.len() ==> #[trigger] groups_view(groups)[i] == groups[i]@,
{
}

/// Weights are given by the name of the tensor, then that of its file; files by their name,
/// then their bytes.
pub proof fn shards_are_as_they_are_given(
    weights: Seq<(String, String)>,
    files: Seq<(&str, &[u8])>,
    i: int,
    j: int,
)
    requires
        0 <= i < weights.len(),
        0 <= j < files.len(),
    ensures
        weights_view(weights).len() == weights.len(),
        weights_view(weights)[i] == (weights[i].0@, weights[i].1@),
        files_view(files).len() == files.len(),
        files_view(files)[j] == (files[j].0@, files[j].1@),
{
}

/// Files can be opened exactly where none of them is refused, and weights be routed exactly
/// where none names a file that is not given.
pub proof fn every_shard_is_needed(
    weights: Seq<(Seq<char>, Seq<char>)>,
    files: Seq<ShardFile>,
)
    ensures
        !all_open(files) <==> exists|i: int| 0 <= i < files.len() && !opens((#[trigger] files[i]).1),
        !all_routed(weights, files) <==> exists|i: int|
            0 <= i < weights.len() && file_index(files, (#[trigger] weights[i]).1) is None,
{
}

/// An archive has the tensors that are stored in it.
pub proof fn archive_has_what_is_stored(archive: SafeTensors<'_>, name: Seq<char>)
    ensures
        archive.has(name) <==> stored_tensors(archive).contains_key(name),
        archive.shape_of(name) is Some <==> archive.has(name),
        archive.tensor_of(name) is Some <==> archive.has(name),
        archive.has(name) ==> {
            let stored = stored_tensors(archive)[name];
            &&& archive.shape_of(name) == Some(stored.shape)
            &&& archive.tensor_of(name) matches Some(tensor) && tensor.shape == stored.shape
                && tensor.data == stored.data && tensor.dtype == Dtype::stored(stored.dtype)
        },
{
}

/// Shards have the tensors that their index names, each with what is stored in its shard.
pub proof fn shards_have_what_is_stored(shards: ShardedSafeTensors<'_>, name: Seq<char>)
    ensures
        shards.has(name) <==> shards.index().contains_key(name),
        shards.shape_of(name) is Some <==> shards.has(name)
            && shards.shards()[shards.index()[name] as int].contains_key(name),
        shards.tensor_of(name) is Some <==> shards.shape_of(name) is Some,
        shards.shape_of(name) is Some ==> {
            let stored = shards.shards()[shards.index()[name] as int][name];
            &&& shards.shape_of(name) == Some(stored.shape)
            &&& shards.tensor_of(name) matches Some(tensor) && tensor.shape == stored.shape
                && tensor.data == stored.data && tensor.dtype == Dtype::stored(stored.dtype)
        },
{
}

/// A tensor that is not there is named in the error.
pub proof fn absent_tensor_is_named(
    archive: SafeTensors<'_>,
    shards: ShardedSafeTensors<'_>,
    name: Seq<char>,
    e: ReaderError,
)
    ensures
        archive.tensor_error(name, e) <==> (e matches ReaderError::TensorNotFound(n) && n@ == name),
        archive.shape_error(name, e) <==> (e matches ReaderError::TensorNotFound(n) && n@ == name),
        shards.tensor_error(name, e) <==> (e matches ReaderError::TensorNotFound(n) && n@ == name),
        shards.shape_error(name, e) <==> (e matches ReaderError::TensorNotFound(n) && n@ == name),
{
}

/// An archive declares too much exactly where the first eight bytes give the length of a
/// header of at most a hundred million bytes, these bytes follow and are a text, and that
/// text is a header whose tensors end where no machine word reaches.
pub proof fn archive_declares_too_much(bytes: Seq<u8>)
    ensures
        !is_countable(bytes) <==> bytes.len() >= 8 && ({
            let length = little_endian(bytes, 0, 8);
            let text = bytes.subrange(8, 8 + length);
            &&& length <= 100_000_000
            &&& 8 + length <= bytes.len()
            &&& valid_utf8(text)
            &&& declared_end(decode_utf8(text)) matches Some(end) && 8 + length + end > usize::MAX
        }),
        opens(bytes) <==> is_countable(bytes) && archive_in(bytes) is Some,
{
}

/// The elements of a tensor are its bytes, two by two or four by four.
pub proof fn elements_are_bytes(data: Seq<u8>, halves: Seq<u16>, words: Seq<u32>, i: int)
    ensures
        reads_as_u16(data, halves) ==> data.len() == 2 * halves.len(),
        reads_as_u16(data, halves) && 0 <= i < halves.len() ==> {
            ||| halves[i] == data[2 * i] + 256 * data[2 * i + 1]
            ||| halves[i] == 256 * data[2 * i] + data[2 * i + 1]
        },
        reads_as_u32(data, words) ==> data.len() == 4 * words.len(),
        reads_as_u32(data, words) && 0 <= i < words.len() ==> {
            ||| words[i] == data[4 * i] + 256 * data[4 * i + 1] + 65536 * data[4 * i + 2]
                + 16777216 * data[4 * i + 3]
            ||| words[i] == 16777216 * data[4 * i] + 65536 * data[4 * i + 1] + 256 * data[4 * i + 2]
                + data[4 * i + 3]
        },
{
    reveal_with_fuel(little_endian, 5);
    reveal_with_fuel(super::convert::big_endian, 5);
}

/// The bytes of a tensor of 16-bit floats come in twos, those of a tensor of 32-bit floats
/// in fours; others may be of any number.
pub proof fn elements_are_whole(tensor: TensorModel, n: nat)
    ensures
        tensor.dtype == Dtype::F16 && tensor.data.len() == 2 * n ==> is_whole(tensor),
        tensor.dtype == Dtype::F16 && tensor.data.len() == 2 * n + 1 ==> !is_whole(tensor),
        tensor.dtype == Dtype::F32 && tensor.data.len() == 4 * n ==> is_whole(tensor),
        tensor.dtype == Dtype::F32 && 4 * n < tensor.data.len() < 4 * n + 4 ==> !is_whole(tensor),
        tensor.dtype != Dtype::F16 && tensor.dtype != Dtype::F32 ==> is_whole(tensor),
{
}

/// One token that is not in the table is enough for the tokens not to be.
pub proof fn every_token_is_in_table<T>(
    batches: Seq<Vec<Token<T>>>,
    num_emb: usize,
    table_len: usize,
)
    ensures
        !all_in_table(batches, num_emb, table_len) <==> exists|b: int, i: int|
            0 <= b < batches.len() && 0 <= i < batches[b]@.len() && !is_in_table(
                #[trigger] batches[b]@[i],
                num_emb,
                table_len,
            ),
{
}

/// A model that is no power-retention model cannot be built, nor one whose shapes make no
/// sense. All others are built or refused.
pub proof fn power_retention_is_built<R: Reader>(builder: ModelBuilder<R>)
    ensures
        info_outcome(&builder.model) is Nonsense ==> !builder.is_buildable(),
        info_outcome(&builder.model) matches InfoOutcome::Info(info) ==> (builder.is_buildable()
            <==> info.custom is Brumby),
        info_outcome(&builder.model) is NotFound ==> builder.is_buildable(),
        info_outcome(&builder.model) is BadIndex ==> builder.is_buildable(),
        info_outcome(&builder.model) is InvalidVersion ==> builder.is_buildable(),
{
}

} // verus!
