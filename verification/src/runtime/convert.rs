//! Stored bytes as the elements of a tensor.

use std::borrow::Cow;
use vstd::prelude::*;

use super::reader::{Dtype, ReaderTensor, TensorModel};

verus! {

/// Why a tensor cannot be converted.
#[derive(Debug, Clone, Copy, PartialEq, Eq, Structural)]
pub enum TensorError {
    /// Its data type is neither the one asked for nor one that converts to it.
    Type,
}

/// `n` bytes from `at` on as a number, the least significant byte first.
pub open spec fn little_endian(data: Seq<u8>, at: int, n: nat) -> int
    decreases n,
{
    if n == 0 {
        0
    } else {
        data[at] + 256 * little_endian(data, at + 1, (n - 1) as nat)
    }
}

/// `n` bytes from `at` on as a number, the most significant byte first.
pub open spec fn big_endian(data: Seq<u8>, at: int, n: nat) -> int
    decreases n,
{
    if n == 0 {
        0
    } else {
        256 * big_endian(data, at, (n - 1) as nat) + data[at + n - 1]
    }
}

/// Bytes read as 16-bit numbers, in the byte order of the machine.
pub open spec fn reads_as_u16(data: Seq<u8>, bits: Seq<u16>) -> bool {
    &&& data.len() == 2 * bits.len()
    &&& (forall|i: int|
        0 <= i < bits.len() ==> #[trigger] bits[i] == little_endian(data, 2 * i, 2)) || (forall|
        i: int,
    |
        0 <= i < bits.len() ==> #[trigger] bits[i] == big_endian(data, 2 * i, 2))
}

/// Bytes read as 32-bit numbers, in the byte order of the machine.
pub open spec fn reads_as_u32(data: Seq<u8>, bits: Seq<u32>) -> bool {
    &&& data.len() == 4 * bits.len()
    &&& (forall|i: int|
        0 <= i < bits.len() ==> #[trigger] bits[i] == little_endian(data, 4 * i, 4)) || (forall|
        i: int,
    |
        0 <= i < bits.len() ==> #[trigger] bits[i] == big_endian(data, 4 * i, 4))
}

/// `bytemuck::pod_collect_to_vec` to `u16`: the same bytes as 16-bit numbers, in the byte
/// order of the machine.
#[verifier::external_body]
fn collect_u16(data: &[u8]) -> (r: Vec<u16>)
    requires
        data@.len() % 2 == 0,
    ensures
        reads_as_u16(data@, r@),
{
    bytemuck::pod_collect_to_vec(data)
}

/// `bytemuck::pod_collect_to_vec` to `u32`: the same bytes as 32-bit numbers, in the byte
/// order of the machine.
#[verifier::external_body]
fn collect_u32(data: &[u8]) -> (r: Vec<u32>)
    requires
        data@.len() % 4 == 0,
    ensures
        reads_as_u32(data@, r@),
{
    bytemuck::pod_collect_to_vec(data)
}

/// The elements of a tensor of 16-bit floats, as bits.
#[derive(Debug, PartialEq, Eq)]
pub enum HalfData {
    /// They are stored as 16-bit floats.
    Same(Vec<u16>),
    /// They are stored as 32-bit floats, each of which is to be rounded.
    Rounded(Vec<u32>),
}

/// The bytes of a tensor are those of whole elements, where it has elements that become
/// 16-bit floats.
pub open spec fn is_whole(tensor: TensorModel) -> bool {
    &&& tensor.dtype == Dtype::F16 ==> tensor.data.len() % 2 == 0
    &&& tensor.dtype == Dtype::F32 ==> tensor.data.len() % 4 == 0
}

impl HalfData {
    /// Reads the elements of a tensor of 16-bit floats. Other data types are refused, but
    /// for 32-bit floats. There is no result where the bytes are not those of whole
    /// elements.
    pub fn from_reader(tensor: &ReaderTensor<'_>) -> (r: Option<Result<Self, TensorError>>)
        ensures
            r is Some <==> is_whole(tensor@),
            r matches Some(result) ==> match tensor@.dtype {
                Dtype::F16 => result matches Ok(HalfData::Same(bits)) && reads_as_u16(
                    tensor@.data,
                    bits@,
                ),
                Dtype::F32 => result matches Ok(HalfData::Rounded(bits)) && reads_as_u32(
                    tensor@.data,
                    bits@,
                ),
                _ => result matches Err(e) && e == TensorError::Type,
            },
    {
        let data: &[u8] = match &tensor.data {
            Cow::Borrowed(data) => *data,
            Cow::Owned(data) => data.as_slice(),
        };
        assert(data@ == tensor@.data);
        match tensor.dtype {
            Dtype::F16 => if data.len() % 2 == 0 {
                Some(Ok(HalfData::Same(collect_u16(data))))
            } else {
                None
            },
            Dtype::F32 => if data.len() % 4 == 0 {
                Some(Ok(HalfData::Rounded(collect_u32(data))))
            } else {
                None
            },
            _ => Some(Err(TensorError::Type)),
        }
    }
}

} // verus!
