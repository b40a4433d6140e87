//! Tensor archives of the `safetensors` crate.

use safetensors::tensor::Metadata;
use safetensors::{SafeTensorError, SafeTensors};
use vstd::prelude::*;
use vstd::utf8::*;

use super::convert::little_endian;
use crate::text::read_utf8;

verus! {

/// An opened archive of the `safetensors` crate.
#[verifier::external_type_specification]
#[verifier::external_body]
pub struct ExSafeTensors<'data>(SafeTensors<'data>);

/// The error of the `safetensors` crate.
#[verifier::external_type_specification]
#[verifier::external_body]
pub struct ExSafeTensorError(SafeTensorError);

/// A stored tensor: the name of its data type, its shape and its bytes.
pub struct StoredTensor {
    pub dtype: Seq<char>,
    pub shape: Seq<usize>,
    pub data: Seq<u8>,
}

/// The tensors that an archive holds, by name.
pub uninterp spec fn stored_tensors(archive: SafeTensors<'_>) -> Map<Seq<char>, StoredTensor>;

/// The tensors that `SafeTensors::deserialize` finds in a byte string, if it
/// accepts it.
pub uninterp spec fn archive_in(bytes: Seq<u8>) -> Option<Map<Seq<char>, StoredTensor>>;

/// The end of the last tensor that a header declares, if it is a header.
pub uninterp spec fn declared_end(header: Seq<char>) -> Option<usize>;

/// `serde_json::from_str` into the `Metadata` of the `safetensors` crate, and
/// `Metadata::data_len` of it: whether the text is a header, and where the last of its
/// tensors ends, depends on the text alone.
#[verifier::external_body]
fn read_declared_end(header: &str) -> (r: Option<usize>)
    ensures
        r == declared_end(header@),
{
    match serde_json::from_str::<Metadata>(header) {
        Ok(metadata) => Some(metadata.data_len()),
        Err(_) => None,
    }
}

/// The most bytes that a header has.
pub const MAX_HEADER_SIZE: u64 = 100_000_000;

/// The length of the header of an archive, which is written in the first eight bytes.
pub open spec fn header_len(bytes: Seq<u8>) -> int {
    little_endian(bytes, 0, 8)
}

/// The bytes of the header of an archive, which follow its length.
pub open spec fn header_bytes(bytes: Seq<u8>) -> Seq<u8> {
    bytes.subrange(8, 8 + header_len(bytes))
}

/// The header of an archive, which is a text.
pub open spec fn header_of(bytes: Seq<u8>) -> Option<Seq<char>> {
    if bytes.len() >= 8 && header_len(bytes) <= MAX_HEADER_SIZE && header_len(bytes) + 8
        <= bytes.len() && valid_utf8(header_bytes(bytes)) {
        Some(decode_utf8(header_bytes(bytes)))
    } else {
        None
    }
}

/// The whole length that an archive declares can be counted.
pub open spec fn is_countable(bytes: Seq<u8>) -> bool {
    header_of(bytes) matches Some(header) ==> (declared_end(header) matches Some(end) ==> end + 8
        + header_len(bytes) <= usize::MAX)
}

/// `SafeTensors::deserialize`: whether it accepts a byte string, and what it finds
/// there, depends on the bytes alone.
#[verifier::external_body]
fn open_archive<'data>(bytes: &'data [u8]) -> (r: Result<SafeTensors<'data>, SafeTensorError>)
    requires
        is_countable(bytes@),
    ensures
        r is Ok <==> archive_in(bytes@) is Some,
        r matches Ok(archive) ==> archive_in(bytes@) == Some(stored_tensors(archive)),
{
    SafeTensors::deserialize(bytes)
}

/// Why an archive cannot be opened.
#[derive(Debug)]
pub enum ArchiveError {
    /// It is not in the safetensors format.
    Format(SafeTensorError),
    /// It declares more bytes than can be counted.
    TooLarge,
}

/// A byte string is an archive.
pub open spec fn opens(bytes: Seq<u8>) -> bool {
    is_countable(bytes) && archive_in(bytes) is Some
}

/// The first eight bytes as a number.
fn read_length(bytes: &[u8]) -> (r: u64)
    requires
        bytes@.len() >= 8,
    ensures
        r == little_endian(bytes@, 0, 8),
{
    let mut n: u64 = 0;
    let mut i: usize = 8;
    let ghost mut bound: int = 1;
    reveal_with_fuel(little_endian, 2);
    while i > 0
        invariant
            i <= 8 <= bytes@.len(),
            n == little_endian(bytes@, i as int, (8 - i) as nat),
            n < bound,
            bound == power_of_256((8 - i) as nat),
        decreases i,
    {
        i -= 1;
        proof {
            reveal_with_fuel(power_of_256, 9);
            assert(bound * 256 == power_of_256((8 - i) as nat));
            bound = bound * 256;
        }
        n = bytes[i] as u64 + 256 * n;
    }
    n
}

spec fn power_of_256(n: nat) -> int
    decreases n,
{
    if n == 0 {
        1
    } else {
        256 * power_of_256((n - 1) as nat)
    }
}

/// Whether the whole length that an archive declares can be counted.
fn check_countable(bytes: &[u8]) -> (r: bool)
    ensures
        r == is_countable(bytes@),
{
    if bytes.len() < 8 {
        return true;
    }
    let n = read_length(bytes);
    if n > MAX_HEADER_SIZE || n > (bytes.len() - 8) as u64 {
        return true;
    }
    let n = n as usize;
    let header = match read_utf8(vstd::slice::slice_subrange(bytes, 8, 8 + n)) {
        Some(header) => header,
        None => return true,
    };
    match read_declared_end(header) {
        Some(end) => match end.checked_add(8) {
            Some(sum) => sum.checked_add(n).is_some(),
            None => false,
        },
        None => true,
    }
}

/// Opens an archive.
pub fn open<'data>(bytes: &'data [u8]) -> (r: Result<SafeTensors<'data>, ArchiveError>)
    ensures
        r is Ok <==> opens(bytes@),
        r matches Ok(archive) ==> archive_in(bytes@) == Some(stored_tensors(archive)),
        r matches Err(e) ==> (e is TooLarge <==> !is_countable(bytes@)),
{
    if check_countable(bytes) {
        match open_archive(bytes) {
            Ok(archive) => Ok(archive),
            Err(e) => Err(ArchiveError::Format(e)),
        }
    } else {
        Err(ArchiveError::TooLarge)
    }
}

/// `SafeTensors::names`: the name of each tensor once, in an order that is left open.
#[verifier::external_body]
pub(crate) fn archive_names<'a>(archive: &'a SafeTensors<'_>) -> (r: Vec<&'a str>)
    ensures
        forall|i: int, j: int| 0 <= i < j < r@.len() ==> (#[trigger] r@[i])@ != (#[trigger] r@[j])@,
        forall|name: Seq<char>| #[trigger]
            stored_tensors(*archive).contains_key(name) <==> exists|i: int|
                0 <= i < r@.len() && (#[trigger] r@[i])@ == name,
{
    archive.names()
}

/// `SafeTensors::tensor`: the tensor of a name, if there is one. The data type is
/// given by the name that its `Display` writes.
#[verifier::external_body]
pub(crate) fn archive_tensor<'data>(archive: &SafeTensors<'data>, name: &str) -> (r: Result<
    (String, Vec<usize>, &'data [u8]),
    SafeTensorError,
>)
    ensures
        r is Ok <==> stored_tensors(*archive).contains_key(name@),
        r matches Ok((dtype, shape, data)) ==> stored_tensors(*archive)[name@] == (StoredTensor {
            dtype: dtype@,
            shape: shape@,
            data: data@,
        }),
{
    let view = archive.tensor(name)?;
    Ok((view.dtype().to_string(), view.shape().to_vec(), view.data()))
}

} // verus!
