//! Readers: named tensors with their shapes, wherever they are stored.

use safetensors::SafeTensors;
use std::borrow::Cow;
use vstd::prelude::*;

use super::archive::{
    archive_in, archive_names, archive_tensor, open, opens, stored_tensors, ArchiveError,
    StoredTensor,
};
use super::loader::LoaderError;
use crate::names::NameMap;
use crate::text::str_eq;

verus! {

/// The data type of a tensor.
#[derive(Debug, Clone, Copy, PartialEq, Eq, Structural)]
pub enum Dtype {
    Bool,
    F4,
    F6E2M3,
    F6E3M2,
    U8,
    I8,
    F8E5M2,
    F8E4M3,
    F8E8M0,
    I16,
    U16,
    F16,
    BF16,
    I32,
    U32,
    F32,
    F64,
    I64,
    U64,
    /// One that the format has got since.
    Other,
}

impl Dtype {
    /// The data type of a safetensors name, if it is one that tensors can be given
    /// with.
    pub open spec fn named(name: Seq<char>) -> Option<Dtype> {
        if name == "F16"@ {
            Some(Dtype::F16)
        } else if name == "F32"@ {
            Some(Dtype::F32)
        } else if name == "BF16"@ {
            Some(Dtype::BF16)
        } else if name == "I32"@ {
            Some(Dtype::I32)
        } else if name == "I64"@ {
            Some(Dtype::I64)
        } else if name == "U8"@ {
            Some(Dtype::U8)
        } else if name == "U16"@ {
            Some(Dtype::U16)
        } else if name == "U32"@ {
            Some(Dtype::U32)
        } else if name == "I8"@ {
            Some(Dtype::I8)
        } else if name == "I16"@ {
            Some(Dtype::I16)
        } else {
            None
        }
    }

    /// Reads the safetensors name of a data type.
    pub fn from_name(name: &str) -> (r: Option<Dtype>)
        ensures
            r == Dtype::named(name@),
    {
        if str_eq(name, "F16") {
            Some(Dtype::F16)
        } else if str_eq(name, "F32") {
            Some(Dtype::F32)
        } else if str_eq(name, "BF16") {
            Some(Dtype::BF16)
        } else if str_eq(name, "I32") {
            Some(Dtype::I32)
        } else if str_eq(name, "I64") {
            Some(Dtype::I64)
        } else if str_eq(name, "U8") {
            Some(Dtype::U8)
        } else if str_eq(name, "U16") {
            Some(Dtype::U16)
        } else if str_eq(name, "U32") {
            Some(Dtype::U32)
        } else if str_eq(name, "I8") {
            Some(Dtype::I8)
        } else if str_eq(name, "I16") {
            Some(Dtype::I16)
        } else {
            None
        }
    }

    /// The data type of a stored tensor.
    pub open spec fn stored(name: Seq<char>) -> Dtype {
        match Dtype::named(name) {
            Some(dtype) => dtype,
            None => if name == "BOOL"@ {
                Dtype::Bool
            } else if name == "F4"@ {
                Dtype::F4
            } else if name == "F6_E2M3"@ {
                Dtype::F6E2M3
            } else if name == "F6_E3M2"@ {
                Dtype::F6E3M2
            } else if name == "F8_E5M2"@ {
                Dtype::F8E5M2
            } else if name == "F8_E4M3"@ {
                Dtype::F8E4M3
            } else if name == "F8_E8M0"@ {
                Dtype::F8E8M0
            } else if name == "F64"@ {
                Dtype::F64
            } else if name == "U64"@ {
                Dtype::U64
            } else {
                Dtype::Other
            },
        }
    }

    /// Reads the safetensors name of the data type of a stored tensor.
    pub fn from_stored(name: &str) -> (r: Dtype)
        ensures
            r == Dtype::stored(name@),
    {
        match Dtype::from_name(name) {
            Some(dtype) => dtype,
            None => if str_eq(name, "BOOL") {
                Dtype::Bool
            } else if str_eq(name, "F4") {
                Dtype::F4
            } else if str_eq(name, "F6_E2M3") {
                Dtype::F6E2M3
            } else if str_eq(name, "F6_E3M2") {
                Dtype::F6E3M2
            } else if str_eq(name, "F8_E5M2") {
                Dtype::F8E5M2
            } else if str_eq(name, "F8_E4M3") {
                Dtype::F8E4M3
            } else if str_eq(name, "F8_E8M0") {
                Dtype::F8E8M0
            } else if str_eq(name, "F64") {
                Dtype::F64
            } else if str_eq(name, "U64") {
                Dtype::U64
            } else {
                Dtype::Other
            },
        }
    }
}

/// Why a reader has no tensor to give.
#[derive(Debug)]
pub enum ReaderError {
    /// There is no tensor of this name.
    TensorNotFound(String),
    /// The archive cannot be opened.
    Malformed(ArchiveError),
}

/// A tensor as it is stored.
#[derive(Debug)]
pub struct ReaderTensor<'a> {
    /// The data type.
    pub dtype: Dtype,
    /// The shape, the slowest dimension first.
    pub shape: Vec<usize>,
    /// The bytes.
    pub data: Cow<'a, [u8]>,
}

/// A tensor as plain values.
pub struct TensorModel {
    pub dtype: Dtype,
    pub shape: Seq<usize>,
    pub data: Seq<u8>,
}

/// The bytes of borrowed or owned data.
pub open spec fn cow_bytes(data: Cow<'_, [u8]>) -> Seq<u8> {
    match data {
        Cow::Borrowed(bytes) => bytes@,
        Cow::Owned(bytes) => bytes@,
    }
}

impl<'a> View for ReaderTensor<'a> {
    type V = TensorModel;

    open spec fn view(&self) -> TensorModel {
        TensorModel { dtype: self.dtype, shape: self.shape@, data: cow_bytes(self.data) }
    }
}

/// A stored tensor, with its data type read.
pub open spec fn tensor_model(stored: StoredTensor) -> TensorModel {
    TensorModel { dtype: Dtype::stored(stored.dtype), shape: stored.shape, data: stored.data }
}

/// Interface accessing a safetensors data blob.
pub trait Reader {
    /// There is a tensor of this name.
    spec fn has(&self, name: Seq<char>) -> bool;

    /// The shape of a tensor, if it is known.
    spec fn shape_of(&self, name: Seq<char>) -> Option<Seq<usize>>;

    /// A tensor, if its data is at hand.
    spec fn tensor_of(&self, name: Seq<char>) -> Option<TensorModel>;

    /// What is answered where the shape of a tensor is not known.
    spec fn shape_error(&self, name: Seq<char>, e: ReaderError) -> bool;

    /// What is answered where the data of a tensor is not at hand.
    spec fn tensor_error(&self, name: Seq<char>, e: ReaderError) -> bool;

    /// The names of the tensors, each once, in any order.
    fn names(&self) -> (r: Vec<&str>)
        ensures
            forall|i: int, j: int|
                0 <= i < j < r@.len() ==> (#[trigger] r@[i])@ != (#[trigger] r@[j])@,
            forall|name: Seq<char>| #[trigger]
                self.has(name) <==> exists|i: int| 0 <= i < r@.len() && (#[trigger] r@[i])@ == name,
    ;

    /// Whether there is a tensor of this name.
    fn contains(&self, name: &str) -> (r: bool)
        ensures
            r == self.has(name@),
    ;

    /// The shape of a tensor.
    fn shape(&self, name: &str) -> (r: Result<Vec<usize>, ReaderError>)
        ensures
            r is Ok <==> self.shape_of(name@) is Some,
            r matches Ok(shape) ==> self.shape_of(name@) == Some(shape@),
            r matches Err(e) ==> self.shape_error(name@, e),
    ;

    /// A tensor.
    fn tensor(&self, name: &str) -> (r: Result<ReaderTensor<'_>, ReaderError>)
        ensures
            r is Ok <==> self.tensor_of(name@) is Some,
            r matches Ok(tensor) ==> self.tensor_of(name@) == Some(tensor@),
            r matches Err(e) ==> self.tensor_error(name@, e),
    ;
}

/// The error for a tensor that is not there.
pub open spec fn is_not_found(name: Seq<char>, e: ReaderError) -> bool {
    e matches ReaderError::TensorNotFound(n) && n@ == name
}

/// The error for a tensor that is not there.
fn not_found(name: &str) -> (r: ReaderError)
    ensures
        is_not_found(name@, r),
{
    ReaderError::TensorNotFound(name.to_owned())
}

/// A tensor of an opened archive.
pub(crate) fn read_tensor<'a>(archive: &SafeTensors<'a>, name: &str) -> (r: Result<
    ReaderTensor<'a>,
    ReaderError,
>)
    ensures
        r is Ok <==> stored_tensors(*archive).contains_key(name@),
        r matches Ok(tensor) ==> tensor@ == tensor_model(stored_tensors(*archive)[name@]),
        r matches Err(e) ==> is_not_found(name@, e),
{
    match archive_tensor(archive, name) {
        Ok((dtype, shape, data)) => {
            let dtype = Dtype::from_stored(dtype.as_str());
            Ok(ReaderTensor { dtype, shape, data: Cow::Borrowed(data) })
        },
        Err(_) => Err(not_found(name)),
    }
}

impl Reader for SafeTensors<'_> {
    open spec fn has(&self, name: Seq<char>) -> bool {
        stored_tensors(*self).contains_key(name)
    }

    open spec fn shape_of(&self, name: Seq<char>) -> Option<Seq<usize>> {
        if stored_tensors(*self).contains_key(name) {
            Some(stored_tensors(*self)[name].shape)
        } else {
            None
        }
    }

    open spec fn tensor_of(&self, name: Seq<char>) -> Option<TensorModel> {
        if stored_tensors(*self).contains_key(name) {
            Some(tensor_model(stored_tensors(*self)[name]))
        } else {
            None
        }
    }

    open spec fn shape_error(&self, name: Seq<char>, e: ReaderError) -> bool {
        is_not_found(name, e)
    }

    open spec fn tensor_error(&self, name: Seq<char>, e: ReaderError) -> bool {
        is_not_found(name, e)
    }

    fn names(&self) -> (r: Vec<&str>) {
        archive_names(self)
    }

    fn contains(&self, name: &str) -> (r: bool) {
        let names = archive_names(self);
        let mut i: usize = 0;
        while i < names.len()
            invariant
                i <= names@.len(),
                forall|j: int| 0 <= j < i ==> (#[trigger] names@[j])@ != name@,
                stored_tensors(*self).contains_key(name@) <==> exists|j: int|
                    0 <= j < names@.len() && (#[trigger] names@[j])@ == name@,
            decreases names@.len() - i,
        {
            if str_eq(names[i], name) {
                return true;
            }
            i += 1;
        }
        false
    }

    fn shape(&self, name: &str) -> (r: Result<Vec<usize>, ReaderError>) {
        match read_tensor(self, name) {
            Ok(tensor) => Ok(tensor.shape),
            Err(e) => Err(e),
        }
    }

    fn tensor(&self, name: &str) -> (r: Result<ReaderTensor<'_>, ReaderError>) {
        read_tensor(self, name)
    }
}

/// A shard file: its name and its bytes.
pub type ShardFile = (Seq<char>, Seq<u8>);

/// The shard files as plain values.
pub open spec fn files_view(files: Seq<(&str, &[u8])>) -> Seq<ShardFile> {
    files.map_values(|f: (&str, &[u8])| (f.0@, f.1@))
}

/// The place of the last file with a name.
pub open spec fn file_index(files: Seq<ShardFile>, name: Seq<char>) -> Option<usize>
    decreases files.len(),
{
    if files.len() == 0 {
        None
    } else if files.last().0 == name {
        Some((files.len() - 1) as usize)
    } else {
        file_index(files.drop_last(), name)
    }
}

/// A weight map as plain values: tensor names with the names of their shard files.
pub open spec fn weights_view(weights: Seq<(String, String)>) -> Seq<(Seq<char>, Seq<char>)> {
    weights.map_values(|w: (String, String)| (w.0@, w.1@))
}

/// From tensor names to the places of their shard files.
pub open spec fn routes(
    weights: Seq<(Seq<char>, Seq<char>)>,
    files: Seq<ShardFile>,
) -> Map<Seq<char>, usize>
    decreases weights.len(),
{
    if weights.len() == 0 {
        Map::empty()
    } else {
        routes(weights.drop_last(), files).insert(
            weights.last().0,
            file_index(files, weights.last().1)->Some_0,
        )
    }
}

/// A tensor that the weight map names once is routed to the file that it names.
pub proof fn routes_to_named_file(
    weights: Seq<(Seq<char>, Seq<char>)>,
    files: Seq<ShardFile>,
    i: int,
)
    requires
        0 <= i < weights.len(),
        forall|j: int| 0 <= j < weights.len() && j != i ==> (#[trigger] weights[j]).0 != weights[i].0,
    ensures
        routes(weights, files).contains_key(weights[i].0),
        routes(weights, files)[weights[i].0] == file_index(files, weights[i].1)->Some_0,
    decreases weights.len(),
{
    if i < weights.len() - 1 {
        let shorter = weights.drop_last();
        assert forall|j: int| 0 <= j < shorter.len() && j != i implies (#[trigger] shorter[j]).0
            != shorter[i].0 by {
            assert(weights[j].0 != weights[i].0);
        }
        routes_to_named_file(shorter, files, i);
        assert(weights[weights.len() - 1].0 != weights[i].0);
    }
}

/// Every shard file is an archive.
pub open spec fn all_open(files: Seq<ShardFile>) -> bool {
    forall|i: int| 0 <= i < files.len() ==> opens((#[trigger] files[i]).1)
}

/// Every tensor is in one of the shard files.
pub open spec fn all_routed(
    weights: Seq<(Seq<char>, Seq<char>)>,
    files: Seq<ShardFile>,
) -> bool {
    forall|i: int| 0 <= i < weights.len() ==> file_index(files, (#[trigger] weights[i]).1) is Some
}

/// A reader that spans multiple safetensors shard files.
///
/// Brumby 14B (and other large HuggingFace models) distribute tensors across
/// multiple `.safetensors` files with a `model.safetensors.index.json` mapping
/// tensor names to shard filenames.
pub struct ShardedSafeTensors<'a> {
    /// Map from tensor name to shard index.
    index: NameMap<usize>,
    /// The opened shards.
    shards: Vec<SafeTensors<'a>>,
}

impl<'a> ShardedSafeTensors<'a> {
    /// From tensor names to the places of their shards.
    pub closed spec fn index(&self) -> Map<Seq<char>, usize> {
        self.index@
    }

    /// The tensors of each shard.
    pub closed spec fn shards(&self) -> Seq<Map<Seq<char>, StoredTensor>> {
        self.shards@.map_values(|archive: SafeTensors<'a>| stored_tensors(archive))
    }

    #[verifier::type_invariant]
    spec fn wf(&self) -> bool {
        forall|name: Seq<char>| #[trigger]
            self.index@.contains_key(name) ==> self.index@[name] < self.shards@.len()
    }

    /// The shard of a tensor has it.
    pub open spec fn holds(&self, name: Seq<char>) -> bool {
        self.index().contains_key(name) && self.shards()[self.index()[name] as int].contains_key(
            name,
        )
    }

    /// Opens the shards, and routes each tensor name to its shard.
    ///
    /// `weight_map` is that of the index file. `shard_files` gives the bytes of each
    /// shard file by its name.
    pub fn new(weight_map: &Vec<(String, String)>, shard_files: &[(&str, &'a [u8])]) -> (r: Result<
        Self,
        LoaderError,
    >)
        ensures
            r is Ok <==> all_open(files_view(shard_files@)) && all_routed(
                weights_view(weight_map@),
                files_view(shard_files@),
            ),
            r matches Ok(s) ==> {
                &&& s.index() == routes(weights_view(weight_map@), files_view(shard_files@))
                &&& s.shards().len() == shard_files@.len()
                &&& forall|i: int|
                    0 <= i < shard_files@.len() ==> archive_in(files_view(shard_files@)[i].1)
                        == Some(#[trigger] s.shards()[i])
            },
            r matches Err(LoaderError::SafeTensor(e)) ==> e is Malformed && !all_open(
                files_view(shard_files@),
            ),
            r matches Err(e) ==> e is SafeTensor || (e is InvalidVersion && all_open(
                files_view(shard_files@),
            )),
    {
        let ghost files = files_view(shard_files@);
        let ghost weights = weights_view(weight_map@);
        let mut filename_to_idx: NameMap<usize> = NameMap::new();
        let mut shards: Vec<SafeTensors<'a>> = Vec::new();
        let mut i: usize = 0;
        while i < shard_files.len()
            invariant
                i <= shard_files@.len(),
                i == shards@.len(),
                files == files_view(shard_files@),
                forall|j: int| 0 <= j < i ==> opens((#[trigger] files[j]).1),
                forall|j: int|
                    0 <= j < i ==> archive_in(files[j].1) == Some(
                        stored_tensors(#[trigger] shards@[j]),
                    ),
                forall|name: Seq<char>|
                    (#[trigger] filename_to_idx@.contains_key(name) <==> file_index(
                        files.take(i as int),
                        name,
                    ) is Some) && (filename_to_idx@.contains_key(name) ==> file_index(
                        files.take(i as int),
                        name,
                    ) == Some(filename_to_idx@[name])),
            decreases shard_files@.len() - i,
        {
            let (filename, data) = shard_files[i];
            assert(files[i as int] == (filename@, data@));
            proof {
                let next = files.take(i + 1);
                assert(next.drop_last() =~= files.take(i as int));
                assert(next.last() == files[i as int]);
            }
            let ghost before = filename_to_idx@;
            filename_to_idx.insert(filename.to_owned(), i);
            assert forall|name: Seq<char>|
                (#[trigger] filename_to_idx@.contains_key(name) <==> file_index(
                    files.take(i + 1),
                    name,
                ) is Some) && (filename_to_idx@.contains_key(name) ==> file_index(
                    files.take(i + 1),
                    name,
                ) == Some(filename_to_idx@[name])) by {
                if name != filename@ {
                    assert(before.contains_key(name) <==> file_index(
                        files.take(i as int),
                        name,
                    ) is Some);
                }
            }
            let archive = match open(data) {
                Ok(archive) => archive,
                Err(e) => {
                    assert(!opens(files[i as int].1));
                    return Err(LoaderError::SafeTensor(ReaderError::Malformed(e)));
                },
            };
            shards.push(archive);
            i += 1;
        }
        assert(files.take(i as int) =~= files);
        assert(all_open(files));

        let mut index: NameMap<usize> = NameMap::new();
        let mut k: usize = 0;
        assert(index@ =~= routes(weights.take(0), files));
        while k < weight_map.len()
            invariant
                k <= weight_map@.len(),
                weights == weights_view(weight_map@),
                files == files_view(shard_files@),
                shards@.len() == files.len(),
                files.len() <= usize::MAX,
                all_open(files),
                forall|name: Seq<char>|
                    (#[trigger] filename_to_idx@.contains_key(name) <==> file_index(
                        files,
                        name,
                    ) is Some) && (filename_to_idx@.contains_key(name) ==> file_index(files, name)
                        == Some(filename_to_idx@[name])),
                forall|j: int| 0 <= j < k ==> file_index(files, (#[trigger] weights[j]).1) is Some,
                index@ == routes(weights.take(k as int), files),
                forall|name: Seq<char>| #[trigger]
                    index@.contains_key(name) ==> index@[name] < shards@.len(),
            decreases weight_map@.len() - k,
        {
            let name = &weight_map[k].0;
            let filename = weight_map[k].1.as_str();
            proof {
                let next = weights.take(k + 1);
                assert(next.drop_last() =~= weights.take(k as int));
                assert(next.last() == weights[k as int]);
                assert(weights[k as int] == (name@, filename@));
                lemma_file_index(files, filename@);
            }
            match filename_to_idx.get(filename) {
                Some(shard) => {
                    index.insert(name.clone(), *shard);
                },
                None => {
                    assert(!filename_to_idx@.contains_key(filename@));
                    assert(file_index(files, weights[k as int].1) is None);
                    return Err(LoaderError::InvalidVersion);
                },
            }
            k += 1;
        }
        assert(weights.take(k as int) =~= weights);
        let s = ShardedSafeTensors { index, shards };
        assert forall|i: int| 0 <= i < shard_files@.len() implies archive_in(files[i].1) == Some(
            #[trigger] s.shards()[i],
        ) by {
            assert(s.shards()[i] == stored_tensors(shards@[i]));
        }
        Ok(s)
    }
}

/// A file is found within the list, under its name.
proof fn lemma_file_index(files: Seq<ShardFile>, name: Seq<char>)
    requires
        files.len() <= usize::MAX,
    ensures
        file_index(files, name) matches Some(i) ==> i < files.len() && files[i as int].0 == name,
    decreases files.len(),
{
    if files.len() > 0 {
        lemma_file_index(files.drop_last(), name);
        if let Some(i) = file_index(files.drop_last(), name) {
            assert(files.drop_last()[i as int] == files[i as int]);
        }
    }
}

/// A tensor that the weight map names once is read from the file that it names, as that
/// file alone would give it.
pub proof fn sharded_reads_named_file<'a>(
    s: ShardedSafeTensors<'a>,
    weights: Seq<(Seq<char>, Seq<char>)>,
    files: Seq<ShardFile>,
    i: int,
)
    requires
        files.len() <= usize::MAX,
        s.index() == routes(weights, files),
        s.shards().len() == files.len(),
        forall|j: int|
            0 <= j < files.len() ==> archive_in(files[j].1) == Some(#[trigger] s.shards()[j]),
        all_routed(weights, files),
        0 <= i < weights.len(),
        forall|j: int| 0 <= j < weights.len() && j != i ==> (#[trigger] weights[j]).0 != weights[i].0,
    ensures
        ({
            let name = weights[i].0;
            let file = files[file_index(files, weights[i].1)->Some_0 as int];
            &&& file.0 == weights[i].1
            &&& s.has(name)
            &&& s.tensor_of(name) == if archive_in(file.1)->Some_0.contains_key(name) {
                Some(tensor_model(archive_in(file.1)->Some_0[name]))
            } else {
                None
            }
        }),
{
    routes_to_named_file(weights, files, i);
    lemma_file_index(files, weights[i].1);
    let k = file_index(files, weights[i].1)->Some_0 as int;
    assert(archive_in(files[k].1) == Some(s.shards()[k]));
}

impl Reader for ShardedSafeTensors<'_> {
    open spec fn has(&self, name: Seq<char>) -> bool {
        self.index().contains_key(name)
    }

    open spec fn shape_of(&self, name: Seq<char>) -> Option<Seq<usize>> {
        if self.holds(name) {
            Some(self.shards()[self.index()[name] as int][name].shape)
        } else {
            None
        }
    }

    open spec fn tensor_of(&self, name: Seq<char>) -> Option<TensorModel> {
        if self.holds(name) {
            Some(tensor_model(self.shards()[self.index()[name] as int][name]))
        } else {
            None
        }
    }

    open spec fn shape_error(&self, name: Seq<char>, e: ReaderError) -> bool {
        is_not_found(name, e)
    }

    open spec fn tensor_error(&self, name: Seq<char>, e: ReaderError) -> bool {
        is_not_found(name, e)
    }

    fn names(&self) -> (r: Vec<&str>) {
        let n = self.index.len();
        let mut names: Vec<&str> = Vec::new();
        let mut i: usize = 0;
        while i < n
            invariant
                i <= n,
                i == names@.len(),
                n == self.index.names().len(),
                forall|j: int| 0 <= j < i ==> (#[trigger] names@[j])@ == self.index.names()[j],
            decreases n - i,
        {
            names.push(self.index.name_at(i));
            i += 1;
        }
        proof {
            assert forall|name: Seq<char>| #[trigger] self.has(name) <==> exists|j: int|
                0 <= j < names@.len() && (#[trigger] names@[j])@ == name by {
                assert(self.index.names().contains(name) <==> self.index@.contains_key(name));
                if self.has(name) {
                    let j = choose|j: int| 0 <= j < n && self.index.names()[j] == name;
                    assert(names@[j]@ == name);
                }
            }
        }
        names
    }

    fn contains(&self, name: &str) -> (r: bool) {
        self.index.contains(name)
    }

    fn shape(&self, name: &str) -> (r: Result<Vec<usize>, ReaderError>) {
        match self.tensor(name) {
            Ok(tensor) => Ok(tensor.shape),
            Err(e) => Err(e),
        }
    }

    fn tensor(&self, name: &str) -> (r: Result<ReaderTensor<'_>, ReaderError>) {
        proof {
            use_type_invariant(self);
        }
        match self.index.get(name) {
            Some(shard) => {
                assert(self.shards()[*shard as int] == stored_tensors(self.shards@[*shard as int]));
                read_tensor(&self.shards[*shard], name)
            },
            None => Err(not_found(name)),
        }
    }
}

} // verus!
