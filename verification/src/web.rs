//! Sessions that are fed tensor by tensor.

use safetensors::SafeTensors;
use std::borrow::Cow;
use std::collections::HashMap;
use vstd::prelude::*;

use crate::names::NameMap;
use crate::runtime::archive::{archive_in, open, opens, stored_tensors, ArchiveError};
use crate::runtime::assembly::{
    assemble_model, end_list, groups_fit, groups_view, is_made_of, kind_of, kinds_of,
    layer_kinds_agree, layer_list, layer_matrices_are_stored, layer_quant, model_requests,
    request_view, requests_view, BuildPlan, Kind, MatrixName, MatrixSource, ModelBuilder, Request,
    RequestModel, Slot, VectorName, VectorSource,
};
use crate::runtime::brumby::{CustomInfo, Model, DEFAULT_RESCALE, DEFAULT_SEP, MIN_TOKEN_CHUNK_SIZE};
use crate::runtime::bundle::Bundle;
use crate::runtime::info::{info_outcome, tells, InfoOutcome};
use crate::runtime::loader::{Loader, LoaderError, PAD_MAT};
use crate::runtime::model::{Activation, ModelCustomInfo, ModelInfo, ModelVersion, Quant};
use crate::runtime::naming::{
    distinct_keys, ends_ask_once, extract_layer_index, key_layer, key_of, layer_asks_once,
    named_layer, Key,
};
use crate::runtime::reader::{
    is_not_found, read_tensor, tensor_model, weights_view, Dtype, Reader, ReaderError, ReaderTensor,
    TensorModel,
};
use crate::runtime::state::{reset_of, Reset};
use crate::text::{begins_with, decimal, join2, str_eq, to_decimal};

verus! {

/// A reader backed only by tensor names and shapes (no data). It serves to read the
/// metadata of a model without loading any tensor bytes.
pub struct MetadataReader<'m> {
    /// The names of the tensors, with the files that they are in.
    pub names: &'m NameMap<String>,
    /// The shapes that are known.
    pub shapes: &'m NameMap<Vec<usize>>,
}

impl Reader for MetadataReader<'_> {
    open spec fn has(&self, name: Seq<char>) -> bool {
        self.names@.contains_key(name)
    }

    open spec fn shape_of(&self, name: Seq<char>) -> Option<Seq<usize>> {
        if self.shapes@.contains_key(name) {
            Some(self.shapes@[name]@)
        } else {
            None
        }
    }

    open spec fn tensor_of(&self, name: Seq<char>) -> Option<TensorModel> {
        None
    }

    open spec fn shape_error(&self, name: Seq<char>, e: ReaderError) -> bool {
        is_not_found(name, e)
    }

    open spec fn tensor_error(&self, name: Seq<char>, e: ReaderError) -> bool {
        is_not_found("metadata-only reader: "@ + name, e)
    }

    fn names(&self) -> (r: Vec<&str>) {
        let n = self.names.len();
        let mut names: Vec<&str> = Vec::new();
        let mut i: usize = 0;
        while i < n
            invariant
                i <= n,
                i == names@.len(),
                n == self.names.names().len(),
                forall|j: int| 0 <= j < i ==> (#[trigger] names@[j])@ == self.names.names()[j],
            decreases n - i,
        {
            names.push(self.names.name_at(i));
            i += 1;
        }
        proof {
            assert forall|name: Seq<char>| #[trigger] self.has(name) <==> exists|j: int|
                0 <= j < names@.len() && (#[trigger] names@[j])@ == name by {
                assert(self.names.names().contains(name) <==> self.names@.contains_key(name));
                if self.has(name) {
                    let j = choose|j: int| 0 <= j < n && self.names.names()[j] == name;
                    assert(names@[j]@ == name);
                }
            }
        }
        names
    }

    fn contains(&self, name: &str) -> (r: bool) {
        self.names.contains(name)
    }

    fn shape(&self, name: &str) -> (r: Result<Vec<usize>, ReaderError>) {
        match self.shapes.get(name) {
            Some(shape) => Ok(copy_shape(shape)),
            None => Err(ReaderError::TensorNotFound(name.to_owned())),
        }
    }

    fn tensor(&self, name: &str) -> (r: Result<ReaderTensor<'_>, ReaderError>) {
        Err(ReaderError::TensorNotFound(join2("metadata-only reader: ", name)))
    }
}

/// A copy of a shape.
fn copy_shape(shape: &Vec<usize>) -> (r: Vec<usize>)
    ensures
        r@ == shape@,
{
    let mut out: Vec<usize> = Vec::new();
    let mut i: usize = 0;
    while i < shape.len()
        invariant
            i <= shape@.len(),
            out@ == shape@.take(i as int),
        decreases shape@.len() - i,
    {
        out.push(shape[i]);
        assert(shape@.take(i + 1) =~= shape@.take(i as int).push(shape@[i as int]));
        i += 1;
    }
    assert(shape@.take(i as int) =~= shape@);
    out
}

/// What a session needs the context for.
#[derive(Debug, Clone, Copy, PartialEq, Eq, Structural)]
pub enum Stage {
    AddShard,
    AddTensor,
    Flush,
    Build,
}

/// Why a session cannot go on.
#[derive(Debug)]
pub enum SessionError {
    /// There is no context yet.
    NotPrepared(Stage),
    /// A shard cannot be opened.
    BadShard(ArchiveError),
    /// A file cannot be opened.
    BadFile(ArchiveError),
    /// A shard lacks a tensor that the index says is in it.
    MissingInShard {
        tensor: String,
        shard: String,
    },
    /// The name of a data type is not known.
    UnknownDtype(String),
    /// The metadata of the model cannot be read.
    Info(LoaderError),
    /// The model is not of the Brumby family.
    NotBrumby,
    /// The embedding was not added.
    MissingEmbed,
    /// A vector was not added.
    MissingVector(String),
    /// A matrix was not added.
    MissingMatrix(String),
    /// There is no such layer.
    LayerOutOfBounds,
}

impl SessionError {
    /// What is said of the error, before what an outside error that it holds says of
    /// itself.
    pub open spec fn says(&self) -> Seq<char> {
        match self {
            SessionError::NotPrepared(Stage::AddShard) => "call prepare() before add_shard()"@,
            SessionError::NotPrepared(Stage::AddTensor) => "call prepare() before add_tensor()"@,
            SessionError::NotPrepared(Stage::Flush) => "call prepare() before flush()"@,
            SessionError::NotPrepared(Stage::Build) => "call prepare() before build()"@,
            SessionError::BadShard(_) => "SafeTensor parse error: "@,
            SessionError::BadFile(_) => "SafeTensors parse error: "@,
            SessionError::MissingInShard { tensor, shard } => "Missing tensor "@ + tensor@
                + " in shard "@ + shard@ + ": "@,
            SessionError::UnknownDtype(dtype) => "Unknown dtype: "@ + dtype@,
            SessionError::Info(_) => "Model info error: "@,
            SessionError::NotBrumby => "Expected Brumby/PowerCoder model"@,
            SessionError::MissingEmbed => "missing model.embed_tokens.weight"@,
            SessionError::MissingVector(name) => "missing vector tensor: "@ + name@,
            SessionError::MissingMatrix(name) => "missing matrix tensor: "@ + name@,
            SessionError::LayerOutOfBounds => "layer index out of bounds"@,
        }
    }

    /// What is said of the error, before what an outside error that it holds says of
    /// itself.
    pub fn message(&self) -> (r: String)
        ensures
            r@ == self.says(),
    {
        match self {
            SessionError::NotPrepared(Stage::AddShard) => {
                "call prepare() before add_shard()".to_owned()
            },
            SessionError::NotPrepared(Stage::AddTensor) => {
                "call prepare() before add_tensor()".to_owned()
            },
            SessionError::NotPrepared(Stage::Flush) => "call prepare() before flush()".to_owned(),
            SessionError::NotPrepared(Stage::Build) => "call prepare() before build()".to_owned(),
            SessionError::BadShard(_) => "SafeTensor parse error: ".to_owned(),
            SessionError::BadFile(_) => "SafeTensors parse error: ".to_owned(),
            SessionError::MissingInShard { tensor, shard } => {
                let mut out = join2("Missing tensor ", tensor.as_str());
                out.append(" in shard ");
                out.append(shard.as_str());
                out.append(": ");
                out
            },
            SessionError::UnknownDtype(dtype) => join2("Unknown dtype: ", dtype.as_str()),
            SessionError::Info(_) => "Model info error: ".to_owned(),
            SessionError::NotBrumby => "Expected Brumby/PowerCoder model".to_owned(),
            SessionError::MissingEmbed => "missing model.embed_tokens.weight".to_owned(),
            SessionError::MissingVector(name) => join2("missing vector tensor: ", name.as_str()),
            SessionError::MissingMatrix(name) => join2("missing matrix tensor: ", name.as_str()),
            SessionError::LayerOutOfBounds => "layer index out of bounds".to_owned(),
        }
    }
}

/// What the sizes of a vector are padded to multiples of, while it is added.
pub const PAD_VECTOR: [usize; 4] = [4, 1, 1, 1];

/// What the sizes of a matrix are padded to multiples of, while it is added.
pub const PAD_WEIGHT: [usize; 4] = [4, 4, 1, 1];

/// What becomes of a tensor that is added.
#[derive(Debug, Clone, Copy, PartialEq, Eq, Structural)]
pub enum Upload {
    /// It stays in main memory, as the embedding.
    Embed,
    /// It is uploaded, as the matrix of the head.
    Head,
    /// It is uploaded as a vector.
    Vector,
    /// It is uploaded as a matrix, quantized to 8 bits or not.
    Matrix {
        quantize: bool,
    },
}

impl Upload {
    /// What the sizes are padded to multiples of.
    pub fn pad(&self) -> (r: [usize; 4])
        ensures
            r == (match self {
                Upload::Embed | Upload::Head => PAD_MAT,
                Upload::Vector => PAD_VECTOR,
                Upload::Matrix { .. } => PAD_WEIGHT,
            }),
    {
        match self {
            Upload::Embed | Upload::Head => PAD_MAT,
            Upload::Vector => PAD_VECTOR,
            Upload::Matrix { .. } => PAD_WEIGHT,
        }
    }
}

/// What becomes of a tensor that is added: by its name, its number of dimensions and
/// the number of layers that are quantized.
pub open spec fn upload_of(name: Seq<char>, dims: nat, quant_layers: u32) -> Upload {
    if name == "model.embed_tokens.weight"@ {
        Upload::Embed
    } else if name == "lm_head.weight"@ {
        Upload::Head
    } else if dims <= 1 {
        Upload::Vector
    } else {
        Upload::Matrix {
            quantize: match named_layer(name) {
                Some(layer) => layer < quant_layers,
                None => false,
            },
        }
    }
}

/// A tensor that is being added.
#[derive(Debug)]
pub struct Staged<'a> {
    /// Its name.
    pub name: String,
    /// The tensor.
    pub tensor: ReaderTensor<'a>,
    /// What becomes of it.
    pub upload: Upload,
}

/// A shard that is being added.
pub struct Shard<'a> {
    file: String,
    archive: SafeTensors<'a>,
    names: Vec<String>,
}

impl<'a> Shard<'a> {
    /// The name of the file.
    pub closed spec fn file(&self) -> Seq<char> {
        self.file@
    }

    /// The tensors that the file holds.
    pub closed spec fn tensors(&self) -> Map<Seq<char>, TensorModel> {
        Map::new(
            |name: Seq<char>| stored_tensors(self.archive).contains_key(name),
            |name: Seq<char>| tensor_model(stored_tensors(self.archive)[name]),
        )
    }

    /// The names of the tensors that belong to the shard.
    pub closed spec fn names(&self) -> Seq<Seq<char>> {
        self.names@.map_values(|name: String| name@)
    }

    /// The number of tensors that belong to the shard.
    pub fn len(&self) -> (r: usize)
        ensures
            r == self.names().len(),
    {
        self.names.len()
    }
}

/// The tensors of an archive, with their data types read.
pub open spec fn archive_tensors(bytes: Seq<u8>) -> Map<Seq<char>, TensorModel> {
    Map::new(
        |name: Seq<char>| archive_in(bytes)->Some_0.contains_key(name),
        |name: Seq<char>| tensor_model(archive_in(bytes)->Some_0[name]),
    )
}

/// A vector of a model: one that was added, or zeros in the shape of the vector before
/// it.
#[derive(Debug)]
pub enum Fetched<V> {
    Given(V),
    Zeros,
}

/// A model in the making: tensors are added one by one, each uploaded as it comes, so
/// that no more than one shard is in memory at a time. `C` stands for the context, `V`
/// for uploaded vectors, `M` for uploaded matrices and `E` for the embedding.
#[verifier::reject_recursive_types(V)]
#[verifier::reject_recursive_types(M)]
pub struct WasmSessionBuilder<C, V, M, E> {
    /// Tensor name to shard filename, from the index.
    pub weight_map: NameMap<String>,
    /// The number of tokens that inputs are chunked by, as it was asked for.
    pub token_chunk_size: u32,
    /// The number of layers that are quantized.
    pub quant_layers: u32,
    /// The context, once there is one.
    pub context: Option<C>,
    /// Accumulated tensor shapes.
    pub tensor_meta: NameMap<Vec<usize>>,
    /// Uploaded vectors (norms, biases).
    pub gpu_vectors: NameMap<V>,
    /// Uploaded weight matrices (possibly quantized).
    pub matrices: NameMap<M>,
    /// Embedding weight.
    pub embed_cpu: Option<E>,
}

/// A weight map: for each tensor, the last file that is given for it.
pub open spec fn files_of(weights: Seq<(Seq<char>, Seq<char>)>) -> Map<Seq<char>, Seq<char>>
    decreases weights.len(),
{
    if weights.len() == 0 {
        Map::empty()
    } else {
        files_of(weights.drop_last()).insert(weights.last().0, weights.last().1)
    }
}

impl<C, V, M, E> WasmSessionBuilder<C, V, M, E> {
    /// The file of each tensor.
    pub open spec fn files(&self) -> Map<Seq<char>, Seq<char>> {
        self.weight_map@.map_values(|file: String| file@)
    }

    /// The shape of each tensor that was added.
    pub open spec fn shapes(&self) -> Map<Seq<char>, Seq<usize>> {
        self.tensor_meta@.map_values(|shape: Vec<usize>| shape@)
    }

    /// What was uploaded.
    pub open spec fn shelf(&self) -> Shelf<V, M, E> {
        Shelf { vectors: self.gpu_vectors@, matrices: self.matrices@, embed: self.embed_cpu }
    }

    /// Starts a model whose tensors are in the files of a weight map.
    pub fn new(weight_map: Vec<(String, String)>, token_chunk_size: u32, quant_layers: u32) -> (r:
        Self)
        ensures
            r.files() == files_of(weights_view(weight_map@)),
            r.token_chunk_size == token_chunk_size,
            r.quant_layers == quant_layers,
            r.context is None,
            r.shapes() == Map::<Seq<char>, Seq<usize>>::empty(),
            r.shelf() == (Shelf {
                vectors: Map::<Seq<char>, V>::empty(),
                matrices: Map::<Seq<char>, M>::empty(),
                embed: None::<E>,
            }),
    {
        let ghost weights = weights_view(weight_map@);
        let mut map: NameMap<String> = NameMap::new();
        let ghost view = |file: String| file@;
        assert(map@.map_values(view) =~= files_of(weights.take(0)));
        for pair in it: weight_map
            invariant
                view == (|file: String| file@),
                weights == weights_view(it.seq()),
                map@.map_values(view) == files_of(weights.take(it.index())),
        {
            let ghost k = it.index();
            let ghost before = map@;
            assert(weights.take(k + 1).drop_last() =~= weights.take(k));
            assert(weights.take(k + 1).last() == weights[k]);
            map.insert(pair.0, pair.1);
            assert(map@.map_values(view) =~= before.map_values(view).insert(pair.0@, pair.1@));
        }
        assert(weights.take(weights.len() as int) =~= weights);
        let r = WasmSessionBuilder {
            weight_map: map,
            token_chunk_size,
            quant_layers,
            context: None,
            tensor_meta: NameMap::new(),
            gpu_vectors: NameMap::new(),
            matrices: NameMap::new(),
            embed_cpu: None,
        };
        assert(r.shapes() =~= Map::<Seq<char>, Seq<usize>>::empty());
        assert(r.shelf().vectors =~= Map::<Seq<char>, V>::empty());
        assert(r.shelf().matrices =~= Map::<Seq<char>, M>::empty());
        r
    }

    /// Everything but the context and the tensors is as it was.
    pub open spec fn same_index(&self, other: &Self) -> bool {
        &&& self.files() == other.files()
        &&& self.weight_map == other.weight_map
        &&& self.quant_layers == other.quant_layers
        &&& self.token_chunk_size == other.token_chunk_size
    }

    /// Takes the context. Must be called before tensors are added.
    pub fn prepare(&mut self, context: C)
        ensures
            final(self).context == Some(context),
            final(self).same_index(old(self)),
            final(self).tensor_meta == old(self).tensor_meta,
            final(self).shelf() == old(self).shelf(),
    {
        self.context = Some(context);
    }

    fn stage<'a>(&mut self, name: &str, tensor: ReaderTensor<'a>) -> (r: Staged<'a>)
        ensures
            r.name@ == name@,
            r.tensor@ == tensor@,
            r.upload == upload_of(name@, tensor@.shape.len(), old(self).quant_layers),
            final(self).same_index(old(self)),
            final(self).context == old(self).context,
            final(self).shapes() == old(self).shapes().insert(name@, tensor@.shape),
            final(self).shelf() == old(self).shelf(),
    {
        let ghost before = self.tensor_meta@;
        let ghost view = |shape: Vec<usize>| shape@;
        let shape = copy_shape(&tensor.shape);
        self.tensor_meta.insert(name.to_owned(), shape);
        assert(self.tensor_meta@.map_values(view) =~= before.map_values(view).insert(
            name@,
            tensor@.shape,
        ));
        let upload = if str_eq(name, "model.embed_tokens.weight") {
            Upload::Embed
        } else if str_eq(name, "lm_head.weight") {
            Upload::Head
        } else if tensor.shape.len() <= 1 {
            Upload::Vector
        } else {
            Upload::Matrix {
                quantize: match extract_layer_index(name) {
                    Some(layer) => layer < self.quant_layers as usize,
                    None => false,
                },
            }
        };
        Staged { name: name.to_owned(), tensor, upload }
    }

    /// Opens one shard, whose tensors are then added one by one.
    ///
    /// For shards above the size limit of a single buffer, use `add_tensor` and `flush`
    /// instead.
    pub fn add_shard<'a>(&self, name: &str, data: &'a [u8]) -> (r: Result<Shard<'a>, SessionError>)
        ensures
            r is Ok <==> self.context is Some && opens(data@),
            r matches Ok(shard) ==> {
                &&& shard.file() == name@
                &&& shard.tensors() == archive_tensors(data@)
                &&& shard.names().no_duplicates()
                &&& forall|tensor: Seq<char>| #[trigger]
                    shard.names().contains(tensor) <==> self.files().contains_key(tensor)
                        && self.files()[tensor] == name@
            },
            r matches Err(e) ==> if self.context is None {
                e == SessionError::NotPrepared(Stage::AddShard)
            } else {
                e is BadShard
            },
    {
        if self.context.is_none() {
            return Err(SessionError::NotPrepared(Stage::AddShard));
        }
        let archive = match open(data) {
            Ok(archive) => archive,
            Err(e) => return Err(SessionError::BadShard(e)),
        };
        let ghost view = |name: String| name@;
        let ghost all = self.weight_map.names();
        let n = self.weight_map.len();
        let mut names: Vec<String> = Vec::new();
        let mut i: usize = 0;
        while i < n
            invariant
                i <= n,
                n == all.len(),
                all == self.weight_map.names(),
                all.no_duplicates(),
                view == (|name: String| name@),
                forall|tensor: Seq<char>|
                    all.contains(tensor) <==> #[trigger] self.weight_map@.contains_key(tensor),
                names@.map_values(view).no_duplicates(),
                forall|tensor: Seq<char>| #[trigger]
                    names@.map_values(view).contains(tensor) <==> all.take(i as int).contains(
                        tensor,
                    ) && self.files()[tensor] == name@,
            decreases n - i,
        {
            let ghost before = names@;
            let ghost seen = all.take(i as int);
            let ghost k = all[i as int];
            assert(all.take(i + 1) =~= seen.push(k));
            assert(!seen.contains(k)) by {
                if seen.contains(k) {
                    let j = choose|j: int| 0 <= j < i && seen[j] == k;
                    assert(all[j] == all[i as int]);
                }
            }
            let file = self.weight_map.value_at(i);
            assert(self.files()[k] == file@);
            if str_eq(file.as_str(), name) {
                names.push(self.weight_map.name_at(i).to_owned());
                assert(names@.map_values(view) =~= before.map_values(view).push(k));
                proof {
                    lemma_push_distinct(before.map_values(view), k);
                }
            }
            proof {
                lemma_contains_push(seen, k);
                lemma_contains_push(before.map_values(view), k);
            }
            i += 1;
        }
        assert(all.take(n as int) =~= all);
        let shard = Shard { file: name.to_owned(), archive, names };
        assert(shard.tensors() =~= archive_tensors(data@));
        proof {
            assert forall|tensor: Seq<char>| #[trigger]
                shard.names().contains(tensor) <==> self.files().contains_key(tensor)
                    && self.files()[tensor] == name@ by {
                assert(all.contains(tensor) <==> self.weight_map@.contains_key(tensor));
                assert(names@.map_values(view).contains(tensor) <==> all.take(
                    n as int,
                ).contains(tensor) && self.files()[tensor] == name@);
            }
        }
        Ok(shard)
    }

    /// Adds a tensor of a shard. What becomes of it is said by the result.
    pub fn add_shard_tensor<'a>(&mut self, shard: &Shard<'a>, i: usize) -> (r: Result<
        Staged<'a>,
        SessionError,
    >)
        requires
            i < shard.names().len(),
        ensures
            r is Ok <==> shard.tensors().contains_key(shard.names()[i as int]),
            r matches Ok(staged) ==> {
                let name = shard.names()[i as int];
                let tensor = shard.tensors()[name];
                &&& staged.name@ == name
                &&& staged.tensor@ == tensor
                &&& staged.upload == upload_of(name, tensor.shape.len(), old(self).quant_layers)
                &&& final(self).shapes() == old(self).shapes().insert(name, tensor.shape)
            },
            r matches Err(e) ==> {
                &&& e matches SessionError::MissingInShard { tensor, shard: file }
                &&& tensor@ == shard.names()[i as int]
                &&& file@ == shard.file()
                &&& final(self).shapes() == old(self).shapes()
            },
            final(self).same_index(old(self)),
            final(self).context == old(self).context,
            final(self).shelf() == old(self).shelf(),
    {
        let name = shard.names[i].as_str();
        match read_tensor(&shard.archive, name) {
            Ok(tensor) => Ok(self.stage(name, tensor)),
            Err(_) => Err(
                SessionError::MissingInShard {
                    tensor: name.to_owned(),
                    shard: shard.file.as_str().to_owned(),
                },
            ),
        }
    }

    /// Add a single tensor by name, shape, dtype string, and raw bytes. What becomes of
    /// it is said by the result.
    ///
    /// `dtype` must be a safetensors dtype string: "F16", "F32", "BF16", etc.
    pub fn add_tensor<'a>(
        &mut self,
        name: &str,
        shape: &[u32],
        dtype: &str,
        data: &'a [u8],
    ) -> (r: Result<Staged<'a>, SessionError>)
        ensures
            r is Ok <==> old(self).context is Some && Dtype::named(dtype@) is Some,
            r matches Ok(staged) ==> {
                let tensor = TensorModel {
                    dtype: Dtype::named(dtype@)->Some_0,
                    shape: shape@.map_values(|n: u32| n as usize),
                    data: data@,
                };
                &&& staged.name@ == name@
                &&& staged.tensor@ == tensor
                &&& staged.upload == upload_of(name@, tensor.shape.len(), old(self).quant_layers)
                &&& final(self).shapes() == old(self).shapes().insert(name@, tensor.shape)
            },
            r matches Err(e) ==> {
                &&& old(self).context is None ==> e == SessionError::NotPrepared(Stage::AddTensor)
                &&& old(self).context is Some ==> (e matches SessionError::UnknownDtype(d) && d@
                    == dtype@)
                &&& final(self).shapes() == old(self).shapes()
            },
            final(self).same_index(old(self)),
            final(self).context == old(self).context,
            final(self).shelf() == old(self).shelf(),
    {
        if self.context.is_none() {
            return Err(SessionError::NotPrepared(Stage::AddTensor));
        }
        let dtype = match Dtype::from_name(dtype) {
            Some(dtype) => dtype,
            None => return Err(SessionError::UnknownDtype(dtype.to_owned())),
        };
        let mut sizes: Vec<usize> = Vec::new();
        let mut i: usize = 0;
        while i < shape.len()
            invariant
                i <= shape@.len(),
                i == sizes@.len(),
                forall|j: int| 0 <= j < i ==> #[trigger] sizes@[j] == shape@[j] as usize,
            decreases shape@.len() - i,
        {
            sizes.push(shape[i] as usize);
            i += 1;
        }
        assert(sizes@ =~= shape@.map_values(|n: u32| n as usize));
        let tensor = ReaderTensor { dtype, shape: sizes, data: Cow::Borrowed(data) };
        Ok(self.stage(name, tensor))
    }

    /// Keeps what became of a tensor that was added.
    pub fn store(&mut self, name: &str, slot: Slot<V, M, E>)
        ensures
            final(self).shelf() == (match slot {
                Slot::Vector(v) => Shelf {
                    vectors: old(self).shelf().vectors.insert(name@, v),
                    ..old(self).shelf()
                },
                Slot::Matrix(m) => Shelf {
                    matrices: old(self).shelf().matrices.insert(name@, m),
                    ..old(self).shelf()
                },
                Slot::Embed(e) => Shelf { embed: Some(e), ..old(self).shelf() },
            }),
            final(self).same_index(old(self)),
            final(self).context == old(self).context,
            final(self).tensor_meta == old(self).tensor_meta,
    {
        match slot {
            Slot::Vector(v) => {
                self.gpu_vectors.insert(name.to_owned(), v);
            },
            Slot::Matrix(m) => {
                self.matrices.insert(name.to_owned(), m);
            },
            Slot::Embed(e) => {
                self.embed_cpu = Some(e);
            },
        }
    }

    /// The context whose pending uploads are to be flushed. Call after a batch of
    /// `add_tensor` calls (typically once per shard).
    pub fn flush(&self) -> (r: Result<&C, SessionError>)
        ensures
            match self.context {
                Some(context) => r matches Ok(c) && *c == context,
                None => r matches Err(e) && e == SessionError::NotPrepared(Stage::Flush),
            },
    {
        match &self.context {
            Some(context) => Ok(context),
            None => Err(SessionError::NotPrepared(Stage::Flush)),
        }
    }
}

/// What is fetched for a request, and what is left. There is nothing where the tensor was
/// not added.
pub open spec fn fetch<V, M, E>(shelf: Shelf<V, M, E>, request: RequestModel) -> Option<
    (Slot<Fetched<V>, M, E>, Shelf<V, M, E>),
> {
    match request {
        Slot::Vector(VectorName::Zeros) => Some((Slot::Vector(Fetched::Zeros), shelf)),
        Slot::Vector(VectorName::File(name)) => if shelf.vectors.contains_key(name) {
            Some(
                (
                    Slot::Vector(Fetched::Given(shelf.vectors[name])),
                    Shelf { vectors: shelf.vectors.remove(name), ..shelf },
                ),
            )
        } else {
            None
        },
        Slot::Matrix(MatrixName::Padded(name)) | Slot::Matrix(
            MatrixName::Stored(name, _),
        ) => if shelf.matrices.contains_key(name) {
            Some(
                (
                    Slot::Matrix(shelf.matrices[name]),
                    Shelf { matrices: shelf.matrices.remove(name), ..shelf },
                ),
            )
        } else {
            None
        },
        Slot::Embed(_) => match shelf.embed {
            Some(embed) => Some((Slot::Embed(embed), Shelf { embed: None, ..shelf })),
            None => None,
        },
    }
}

/// What is fetched for requests in order, and what is left; or the first request whose
/// tensor was not added.
pub open spec fn fetch_list<V, M, E>(
    shelf: Shelf<V, M, E>,
    requests: Seq<RequestModel>,
) -> Result<(Seq<Slot<Fetched<V>, M, E>>, Shelf<V, M, E>), RequestModel>
    decreases requests.len(),
{
    if requests.len() == 0 {
        Ok((Seq::empty(), shelf))
    } else {
        match fetch_list(shelf, requests.drop_last()) {
            Ok((slots, rest)) => match fetch(rest, requests.last()) {
                Some((slot, rest)) => Ok((slots.push(slot), rest)),
                None => Err(requests.last()),
            },
            Err(missing) => Err(missing),
        }
    }
}

/// What is fetched for groups of requests in order, and what is left; or the first
/// request whose tensor was not added.
pub open spec fn fetch_groups<V, M, E>(
    shelf: Shelf<V, M, E>,
    groups: Seq<Seq<RequestModel>>,
) -> Result<(Seq<Seq<Slot<Fetched<V>, M, E>>>, Shelf<V, M, E>), RequestModel>
    decreases groups.len(),
{
    if groups.len() == 0 {
        Ok((Seq::empty(), shelf))
    } else {
        match fetch_groups(shelf, groups.drop_last()) {
            Ok((done, rest)) => match fetch_list(rest, groups.last()) {
                Ok((slots, rest)) => Ok((done.push(slots), rest)),
                Err(missing) => Err(missing),
            },
            Err(missing) => Err(missing),
        }
    }
}

/// The groups of requests for a model: what no layer has, and then each layer. What was
/// uploaded is quantized already, so no layer asks for it.
pub open spec fn wanted(info: ModelInfo, custom: CustomInfo) -> Seq<Seq<RequestModel>> {
    Seq::new(
        (info.num_layer + 1) as nat,
        |i: int|
            if i == 0 {
                end_list(custom)
            } else {
                layer_list((i - 1) as usize, custom, Quant::Fp16)
            },
    )
}

/// An error names the tensor of a request.
pub open spec fn names_missing(e: SessionError, request: RequestModel) -> bool {
    match request {
        Slot::Vector(VectorName::File(name)) => e matches SessionError::MissingVector(n) && n@
            == name,
        Slot::Vector(VectorName::Zeros) => false,
        Slot::Matrix(MatrixName::Padded(name)) | Slot::Matrix(MatrixName::Stored(name, _)) => e
            matches SessionError::MissingMatrix(n) && n@ == name,
        Slot::Embed(_) => e is MissingEmbed,
    }
}

/// What was fetched is of the kinds that were requested.
proof fn lemma_fetched_kinds<V, M, E>(shelf: Shelf<V, M, E>, requests: Seq<RequestModel>)
    ensures
        fetch_list(shelf, requests) matches Ok((slots, _)) ==> kinds_of(slots) == kinds_of(
            requests,
        ),
    decreases requests.len(),
{
    if requests.len() > 0 {
        lemma_fetched_kinds(shelf, requests.drop_last());
        if let Ok((slots, _)) = fetch_list(shelf, requests) {
            let before = fetch_list(shelf, requests.drop_last())->Ok_0.0;
            assert(slots.drop_last() =~= before);
            assert(kinds_of(slots) =~= kinds_of(before).push(kind_of(slots.last())));
            assert(kinds_of(requests) =~= kinds_of(requests.drop_last()).push(
                kind_of(requests.last()),
            ));
        }
    } else {
        assert(kinds_of(Seq::<Slot<Fetched<V>, M, E>>::empty()) =~= kinds_of(requests));
    }
}

impl<C, V, M, E> WasmSessionBuilder<C, V, M, E> {
    /// What the names and shapes of the tensors say.
    pub open spec fn outcome(&self) -> InfoOutcome {
        info_outcome(&self.metadata())
    }

    /// The names and shapes of the tensors.
    pub open spec fn metadata(&self) -> MetadataReader<'_> {
        MetadataReader { names: &self.weight_map, shapes: &self.tensor_meta }
    }

    /// Reads the metadata of the model from the names and shapes of its tensors. There is
    /// no result where the shapes make no sense.
    pub fn compute_model_info(&self) -> (r: Option<Result<ModelInfo, LoaderError>>)
        ensures
            tells(&self.metadata(), r, self.outcome()),
    {
        let reader = MetadataReader { names: &self.weight_map, shapes: &self.tensor_meta };
        Loader::checked_info(&reader)
    }

    /// Takes a vector.
    pub fn take_vector(&mut self, name: &str) -> (r: Result<V, SessionError>)
        ensures
            match fetch(old(self).shelf(), Slot::Vector(VectorName::File(name@))) {
                Some((slot, rest)) => r matches Ok(v) && slot == Slot::<Fetched<V>, M, E>::Vector(
                    Fetched::Given(v),
                ) && final(self).shelf() == rest,
                None => r matches Err(SessionError::MissingVector(n)) && n@ == name@
                    && final(self).shelf() == old(self).shelf(),
            },
            final(self).same_index(old(self)),
            final(self).context == old(self).context,
            final(self).tensor_meta == old(self).tensor_meta,
    {
        let ghost before = self.gpu_vectors@;
        match self.gpu_vectors.remove(name) {
            Some(v) => Ok(v),
            None => {
                assert(before.remove(name@) =~= before);
                Err(SessionError::MissingVector(name.to_owned()))
            },
        }
    }

    /// Takes a matrix.
    pub fn take_matrix(&mut self, name: &str) -> (r: Result<M, SessionError>)
        ensures
            match fetch(old(self).shelf(), Slot::Matrix(MatrixName::Padded(name@))) {
                Some((slot, rest)) => r matches Ok(m) && slot == Slot::<Fetched<V>, M, E>::Matrix(m)
                    && final(self).shelf() == rest,
                None => r matches Err(SessionError::MissingMatrix(n)) && n@ == name@
                    && final(self).shelf() == old(self).shelf(),
            },
            final(self).same_index(old(self)),
            final(self).context == old(self).context,
            final(self).tensor_meta == old(self).tensor_meta,
    {
        let ghost before = self.matrices@;
        match self.matrices.remove(name) {
            Some(m) => Ok(m),
            None => {
                assert(before.remove(name@) =~= before);
                Err(SessionError::MissingMatrix(name.to_owned()))
            },
        }
    }

    fn take(&mut self, request: &Request) -> (r: Result<Slot<Fetched<V>, M, E>, SessionError>)
        ensures
            match fetch(old(self).shelf(), request_view(*request)) {
                Some((slot, rest)) => r matches Ok(s) && s == slot && final(self).shelf() == rest,
                None => r matches Err(e) && names_missing(e, request_view(*request))
                    && final(self).shelf() == old(self).shelf(),
            },
            final(self).same_index(old(self)),
    {
        match request {
            Slot::Vector(VectorSource::File(name)) => match self.take_vector(name.as_str()) {
                Ok(v) => Ok(Slot::Vector(Fetched::Given(v))),
                Err(e) => Err(e),
            },
            Slot::Vector(VectorSource::Zeros) => Ok(Slot::Vector(Fetched::Zeros)),
            Slot::Matrix(MatrixSource::Padded(name)) => match self.take_matrix(name.as_str()) {
                Ok(m) => Ok(Slot::Matrix(m)),
                Err(e) => Err(e),
            },
            Slot::Matrix(MatrixSource::Stored(name, _)) => match self.take_matrix(name.as_str()) {
                Ok(m) => Ok(Slot::Matrix(m)),
                Err(e) => Err(e),
            },
            Slot::Embed(_) => match self.embed_cpu.take() {
                Some(embed) => Ok(Slot::Embed(embed)),
                None => Err(SessionError::MissingEmbed),
            },
        }
    }

    fn take_list(&mut self, requests: &Vec<Request>) -> (r: Result<
        Vec<Slot<Fetched<V>, M, E>>,
        SessionError,
    >)
        ensures
            match fetch_list(old(self).shelf(), requests_view(requests@)) {
                Ok((slots, rest)) => r matches Ok(s) && s@ == slots && final(self).shelf() == rest,
                Err(missing) => r matches Err(e) && names_missing(e, missing),
            },
            final(self).same_index(old(self)),
    {
        let ghost all = requests_view(requests@);
        let ghost shelf = self.shelf();
        let mut out: Vec<Slot<Fetched<V>, M, E>> = Vec::new();
        let mut i: usize = 0;
        while i < requests.len()
            invariant
                i <= requests@.len(),
                all == requests_view(requests@),
                shelf == old(self).shelf(),
                fetch_list(shelf, all.take(i as int)) == Ok::<_, RequestModel>(
                    (out@, self.shelf()),
                ),
                self.same_index(old(self)),
            decreases requests@.len() - i,
        {
            assert(all.take(i + 1).drop_last() =~= all.take(i as int));
            assert(all.take(i + 1).last() == request_view(requests@[i as int]));
            match self.take(&requests[i]) {
                Ok(slot) => {
                    out.push(slot);
                },
                Err(e) => {
                    proof {
                        lemma_first_missing(shelf, all, i + 1);
                    }
                    return Err(e);
                },
            }
            i += 1;
        }
        assert(all.take(i as int) =~= all);
        Ok(out)
    }

    fn take_groups(&mut self, groups: &Vec<Vec<Request>>) -> (r: Result<
        Vec<Vec<Slot<Fetched<V>, M, E>>>,
        SessionError,
    >)
        ensures
            match fetch_groups(old(self).shelf(), group_lists(groups@)) {
                Ok((done, rest)) => r matches Ok(g) && groups_view(g@) == done
                    && final(self).shelf() == rest,
                Err(missing) => r matches Err(e) && names_missing(e, missing),
            },
            final(self).same_index(old(self)),
    {
        let ghost all = group_lists(groups@);
        let ghost shelf = self.shelf();
        let mut out: Vec<Vec<Slot<Fetched<V>, M, E>>> = Vec::new();
        let mut i: usize = 0;
        assert(groups_view(out@) =~= Seq::<Seq<Slot<Fetched<V>, M, E>>>::empty());
        while i < groups.len()
            invariant
                i <= groups@.len(),
                all == group_lists(groups@),
                shelf == old(self).shelf(),
                fetch_groups(shelf, all.take(i as int)) == Ok::<_, RequestModel>(
                    (groups_view(out@), self.shelf()),
                ),
                self.same_index(old(self)),
            decreases groups@.len() - i,
        {
            let ghost before = out@;
            assert(all.take(i + 1).drop_last() =~= all.take(i as int));
            assert(all.take(i + 1).last() == requests_view(groups@[i as int]@));
            match self.take_list(&groups[i]) {
                Ok(slots) => {
                    out.push(slots);
                    assert(groups_view(out@) =~= groups_view(before).push(slots@));
                },
                Err(e) => {
                    proof {
                        lemma_first_missing_group(shelf, all, i + 1);
                    }
                    return Err(e);
                },
            }
            i += 1;
        }
        assert(all.take(i as int) =~= all);
        Ok(out)
    }

    /// A result is what is built: an error for the first thing that is missing, or a
    /// session over a model made of the tensors that were added.
    pub open spec fn builds(
        &self,
        r: Result<WasmSession<C, Model<Fetched<V>, M, E>>, SessionError>,
    ) -> bool {
        match self.context {
            None => r matches Err(e) && e == SessionError::NotPrepared(Stage::Build),
            Some(context) => match self.outcome() {
                InfoOutcome::Info(info) => match info.custom {
                    ModelCustomInfo::Brumby(custom) => match fetch_groups(
                        self.shelf(),
                        wanted(info, custom),
                    ) {
                        Ok((groups, _)) => {
                            &&& r matches Ok(session)
                            &&& session.context == context
                            &&& session.info == info
                            &&& session.num_vocab == info.num_vocab
                            &&& session.token_chunk_size == chunk_of(self.token_chunk_size)
                            &&& session.runtime.info == info
                            &&& session.runtime.rescale == DEFAULT_RESCALE
                            &&& session.runtime.sep == DEFAULT_SEP
                            &&& is_made_of(session.runtime.tensor, groups, custom)
                        },
                        Err(missing) => r matches Err(e) && names_missing(e, missing),
                    },
                    _ => r matches Err(e) && e == SessionError::NotBrumby,
                },
                outcome => r matches Err(SessionError::Info(e)) && tells(
                    &self.metadata(),
                    Some(Err(e)),
                    outcome,
                ),
            },
        }
    }

    /// Assemble the model from the tensors that were added.
    pub fn build(self) -> (r: Result<WasmSession<C, Model<Fetched<V>, M, E>>, SessionError>)
        requires
            self.context is Some ==> self.outcome() !is Nonsense,
        ensures
            self.builds(r),
    {
        match self.checked_build() {
            Some(r) => r,
            None => vstd::pervasive::unreached(),
        }
    }

    /// Assemble the model from the tensors that were added. There is no result where the
    /// shapes of the tensors make no sense.
    pub fn checked_build(self) -> (r: Option<
        Result<WasmSession<C, Model<Fetched<V>, M, E>>, SessionError>,
    >)
        ensures
            r is None <==> self.context is Some && self.outcome() is Nonsense,
            r matches Some(result) ==> self.builds(result),
    {
        let mut this = self;
        let context = match this.context.take() {
            Some(context) => context,
            None => return Some(Err(SessionError::NotPrepared(Stage::Build))),
        };
        let info = match this.compute_model_info() {
            Some(Ok(info)) => info,
            Some(Err(e)) => return Some(Err(SessionError::Info(e))),
            None => return None,
        };
        let custom = match info.custom {
            ModelCustomInfo::Brumby(custom) => custom,
            _ => return Some(Err(SessionError::NotBrumby)),
        };
        let quant: HashMap<usize, Quant> = HashMap::new();
        let requests = model_requests(&info, &custom, &quant);
        assert(group_lists(requests@) =~= wanted(info, custom));
        let groups = match this.take_groups(&requests) {
            Ok(groups) => groups,
            Err(e) => return Some(Err(e)),
        };
        proof {
            lemma_groups_fit(self.shelf(), info, custom);
            assert(groups_fit(groups@, info, custom)) by {
                assert(groups_view(groups@)[0] == groups@[0]@);
                assert forall|i: int| 1 <= i < groups@.len() implies kinds_of(
                    (#[trigger] groups@[i])@,
                ) == kinds_of(layer_list(0, custom, Quant::Fp16)) by {
                    assert(groups_view(groups@)[i] == groups@[i]@);
                }
            }
        }
        match assemble_model(groups, &info, &custom) {
            Some(tensor) => {
                let model = Model { info, rescale: DEFAULT_RESCALE, sep: DEFAULT_SEP, tensor };
                Some(Ok(WasmSession::new(context, model, info, this.token_chunk_size)))
            },
            None => vstd::pervasive::unreached(),
        }
    }
}

/// Groups of requests as plain values.
pub open spec fn group_lists(groups: Seq<Vec<Request>>) -> Seq<Seq<RequestModel>> {
    groups.map_values(|group: Vec<Request>| requests_view(group@))
}

proof fn lemma_first_missing<V, M, E>(
    shelf: Shelf<V, M, E>,
    requests: Seq<RequestModel>,
    k: int,
)
    requires
        0 <= k <= requests.len(),
        fetch_list(shelf, requests.take(k)) is Err,
    ensures
        fetch_list(shelf, requests) == fetch_list(shelf, requests.take(k)),
    decreases requests.len() - k,
{
    if k < requests.len() {
        assert(requests.take(k + 1).drop_last() =~= requests.take(k));
        lemma_first_missing(shelf, requests, k + 1);
    } else {
        assert(requests.take(k) =~= requests);
    }
}

proof fn lemma_first_missing_group<V, M, E>(
    shelf: Shelf<V, M, E>,
    groups: Seq<Seq<RequestModel>>,
    k: int,
)
    requires
        0 <= k <= groups.len(),
        fetch_groups(shelf, groups.take(k)) is Err,
    ensures
        fetch_groups(shelf, groups) == fetch_groups(shelf, groups.take(k)),
    decreases groups.len() - k,
{
    if k < groups.len() {
        assert(groups.take(k + 1).drop_last() =~= groups.take(k));
        lemma_first_missing_group(shelf, groups, k + 1);
    } else {
        assert(groups.take(k) =~= groups);
    }
}

proof fn lemma_group_kinds<V, M, E>(shelf: Shelf<V, M, E>, groups: Seq<Seq<RequestModel>>)
    ensures
        fetch_groups(shelf, groups) matches Ok((done, _)) ==> done.len() == groups.len() && forall|
            i: int,
        |
            0 <= i < done.len() ==> kinds_of(#[trigger] done[i]) == kinds_of(groups[i]),
    decreases groups.len(),
{
    if groups.len() > 0 {
        lemma_group_kinds(shelf, groups.drop_last());
        if let Ok((done, rest)) = fetch_groups(shelf, groups.drop_last()) {
            lemma_fetched_kinds(rest, groups.last());
        }
    }
}

proof fn lemma_groups_fit<V, M, E>(shelf: Shelf<V, M, E>, info: ModelInfo, custom: CustomInfo)
    ensures
        fetch_groups(shelf, wanted(info, custom)) matches Ok((done, _)) ==> {
            &&& done.len() == info.num_layer + 1
            &&& kinds_of(done[0]) == seq![Kind::Embed, Kind::Vector, Kind::Vector, Kind::Matrix]
            &&& forall|i: int|
                1 <= i < done.len() ==> kinds_of(#[trigger] done[i]) == kinds_of(
                    layer_list(0, custom, Quant::Fp16),
                )
        },
{
    let groups = wanted(info, custom);
    lemma_group_kinds(shelf, groups);
    if let Ok((done, _)) = fetch_groups(shelf, groups) {
        assert(kinds_of(done[0]) == kinds_of(groups[0]));
        assert(kinds_of(end_list(custom)) =~= seq![
            Kind::Embed,
            Kind::Vector,
            Kind::Vector,
            Kind::Matrix,
        ]);
        assert forall|i: int| 1 <= i < done.len() implies kinds_of(#[trigger] done[i])
            == kinds_of(layer_list(0, custom, Quant::Fp16)) by {
            layer_kinds_agree(0, (i - 1) as usize, custom, Quant::Fp16, Quant::Fp16);
            assert(groups[i] == layer_list((i - 1) as usize, custom, Quant::Fp16));
        }
    }
}

/// The number of tokens that inputs are chunked by: as it was asked for, but no less than
/// the least.
pub open spec fn chunk_of(token_chunk_size: u32) -> usize {
    if token_chunk_size < MIN_TOKEN_CHUNK_SIZE {
        MIN_TOKEN_CHUNK_SIZE
    } else {
        token_chunk_size as usize
    }
}

/// A session that wraps the full inference pipeline. `C` stands for the context and `T`
/// for what runs the model.
pub struct WasmSession<C, T> {
    pub context: C,
    pub runtime: T,
    pub num_vocab: usize,
    pub token_chunk_size: usize,
    pub info: ModelInfo,
}

impl<C, T> WasmSession<C, T> {
    /// A session over a model.
    pub fn new(context: C, runtime: T, info: ModelInfo, token_chunk_size: u32) -> (r: Self)
        ensures
            r.context == context,
            r.runtime == runtime,
            r.info == info,
            r.num_vocab == info.num_vocab,
            r.token_chunk_size == chunk_of(token_chunk_size),
    {
        let size = token_chunk_size as usize;
        WasmSession {
            context,
            runtime,
            num_vocab: info.num_vocab,
            token_chunk_size: if size < MIN_TOKEN_CHUNK_SIZE {
                MIN_TOKEN_CHUNK_SIZE
            } else {
                size
            },
            info,
        }
    }
}

/// A step of an inference: where there is no output yet, the rest of the input is still
/// to be run.
#[derive(Debug, PartialEq, Eq)]
pub enum InferStep<'a, F> {
    /// Run the rest of the input.
    Again,
    /// The logits of the vocabulary.
    Done(&'a [F]),
}

/// A number of 32-bit floats of a stored tensor.
#[derive(Debug, Clone, Copy, PartialEq, Eq, Structural)]
pub struct Span {
    pub start: usize,
    pub end: usize,
}

/// The name of a model version.
pub open spec fn version_name(version: ModelVersion) -> Seq<char> {
    match version {
        ModelVersion::V4 => "V4"@,
        ModelVersion::V5 => "V5"@,
        ModelVersion::V6 => "V6"@,
        ModelVersion::V7 => "V7"@,
        ModelVersion::Brumby => "Brumby"@,
    }
}

/// The name of an activation function.
pub open spec fn activation_name(act: Activation) -> Seq<char> {
    match act {
        Activation::Identity => "None"@,
        Activation::Silu => "Silu"@,
        Activation::Gelu => "Gelu"@,
        Activation::OppositeExp => "OppositeExp"@,
        Activation::StableExp => "StableExp"@,
    }
}

/// The name of an activation function.
pub fn activation_text(act: Activation) -> (r: &'static str)
    ensures
        r@ == activation_name(act),
{
    match act {
        Activation::Identity => "None",
        Activation::Silu => "Silu",
        Activation::Gelu => "Gelu",
        Activation::OppositeExp => "OppositeExp",
        Activation::StableExp => "StableExp",
    }
}

/// A truth value in words.
pub open spec fn bool_name(b: bool) -> Seq<char> {
    if b {
        "true"@
    } else {
        "false"@
    }
}

/// A truth value in words.
pub fn bool_text(b: bool) -> (r: &'static str)
    ensures
        r@ == bool_name(b),
{
    if b {
        "true"
    } else {
        "false"
    }
}

/// A number field of a JSON object, after another field.
pub open spec fn number_field(label: Seq<char>, n: usize) -> Seq<char> {
    label + decimal(n as nat)
}

/// A JSON object with what is known of a model of the Brumby family.
pub open spec fn brumby_json(info: ModelInfo, custom: CustomInfo, theta: Seq<char>) -> Seq<char> {
    "{\"version\":\""@ + version_name(info.version) + "\""@ + number_field(
        ",\"num_layer\":"@,
        info.num_layer,
    ) + number_field(",\"num_emb\":"@, info.num_emb) + number_field(
        ",\"num_hidden\":"@,
        info.num_hidden,
    ) + number_field(",\"num_vocab\":"@, info.num_vocab) + number_field(
        ",\"num_head\":"@,
        info.num_head,
    ) + number_field(",\"num_kv_head\":"@, custom.num_kv_head) + number_field(
        ",\"head_dim\":"@,
        custom.head_dim,
    ) + number_field(",\"intermediate_size\":"@, custom.intermediate_size)
        + ",\"has_qk_norm\":"@ + bool_name(custom.has_qk_norm) + ",\"gated_ffn\":"@ + bool_name(
        custom.gated_ffn,
    ) + ",\"hidden_act\":\""@ + activation_name(custom.hidden_act) + "\",\"rope_theta\":"@
        + theta + "}"@
}

fn append_number(out: &mut String, label: &str, n: usize)
    ensures
        final(out)@ == old(out)@ + number_field(label@, n),
{
    let ghost before = out@;
    out.append(label);
    out.append(to_decimal(n).as_str());
    assert(out@ =~= before + number_field(label@, n));
}

impl<C, T> WasmSession<C, T> {
    /// What becomes of the output of a run. There is no result where the output has fewer
    /// logits than the vocabulary has entries.
    pub fn infer_raw<'a, F>(&self, output: &'a [F]) -> (r: Option<InferStep<'a, F>>)
        ensures
            r is None <==> 0 < output@.len() < self.num_vocab,
            r matches Some(InferStep::Again) ==> output@.len() == 0,
            r matches Some(InferStep::Done(logits)) ==> output@.len() > 0 && logits@
                == output@.take(self.num_vocab as int),
    {
        if output.len() == 0 {
            Some(InferStep::Again)
        } else if output.len() < self.num_vocab {
            None
        } else {
            let logits = vstd::slice::slice_subrange(output, 0, self.num_vocab);
            assert(logits@ =~= output@.take(self.num_vocab as int));
            Some(InferStep::Done(logits))
        }
    }

    /// Return the unpadded vocabulary size.
    pub fn num_vocab(&self) -> (r: usize)
        ensures
            r == self.num_vocab,
    {
        self.num_vocab
    }

    /// Return the model version string.
    pub fn version(&self) -> (r: String)
        ensures
            r@ == version_name(self.info.version),
    {
        match self.info.version {
            ModelVersion::V4 => "V4".to_owned(),
            ModelVersion::V5 => "V5".to_owned(),
            ModelVersion::V6 => "V6".to_owned(),
            ModelVersion::V7 => "V7".to_owned(),
            ModelVersion::Brumby => "Brumby".to_owned(),
        }
    }

    /// Return the number of layers.
    pub fn num_layer(&self) -> (r: usize)
        ensures
            r == self.info.num_layer,
    {
        self.info.num_layer
    }

    /// Return the embedding dimension.
    pub fn num_emb(&self) -> (r: usize)
        ensures
            r == self.info.num_emb,
    {
        self.info.num_emb
    }

    /// Return the number of attention heads.
    pub fn num_head(&self) -> (r: usize)
        ensures
            r == self.info.num_head,
    {
        self.info.num_head
    }

    /// The first `count` values of the embed vector for `token_id`, in a table of `len`
    /// values, `num_emb` for each token. There are none where the token is not in the
    /// table, or the numbers are too large to count with.
    pub fn debug_embed(&self, num_emb: usize, len: usize, token_id: u32, count: u32) -> (r: Option<
        Span,
    >)
        ensures
            r is Some <==> num_emb * token_id + count <= usize::MAX && num_emb * token_id + num_emb
                <= usize::MAX && num_emb * token_id <= len,
            r matches Some(span) ==> {
                &&& span.start == num_emb * token_id
                &&& span.start <= span.end <= len
                &&& span.end - span.start == least(
                    least(count as int, num_emb as int),
                    len - num_emb * token_id,
                )
            },
    {
        let start = match num_emb.checked_mul(token_id as usize) {
            Some(start) => start,
            None => return None,
        };
        let by_count = match start.checked_add(count as usize) {
            Some(end) => end,
            None => return None,
        };
        let by_emb = match start.checked_add(num_emb) {
            Some(end) => end,
            None => return None,
        };
        if start > len {
            return None;
        }
        let mut end = by_count;
        if by_emb < end {
            end = by_emb;
        }
        if len < end {
            end = len;
        }
        Some(Span { start, end })
    }

    /// Return a JSON string with full model info including custom (Brumby/PowerCoder)
    /// fields. `rope_theta` is the base of the rotary embedding in decimal.
    pub fn debug_info(&self, rope_theta: &str) -> (r: String)
        ensures
            r@ == (match self.info.custom {
                ModelCustomInfo::Brumby(custom) => brumby_json(self.info, custom, rope_theta@),
                _ => "{\"error\": \"not Brumby\"}"@,
            }),
    {
        match &self.info.custom {
            ModelCustomInfo::Brumby(custom) => {
                let mut out = "{\"version\":\"".to_owned();
                out.append(self.version().as_str());
                out.append("\"");
                append_number(&mut out, ",\"num_layer\":", self.info.num_layer);
                append_number(&mut out, ",\"num_emb\":", self.info.num_emb);
                append_number(&mut out, ",\"num_hidden\":", self.info.num_hidden);
                append_number(&mut out, ",\"num_vocab\":", self.info.num_vocab);
                append_number(&mut out, ",\"num_head\":", self.info.num_head);
                append_number(&mut out, ",\"num_kv_head\":", custom.num_kv_head);
                append_number(&mut out, ",\"head_dim\":", custom.head_dim);
                append_number(&mut out, ",\"intermediate_size\":", custom.intermediate_size);
                out.append(",\"has_qk_norm\":");
                out.append(bool_text(custom.has_qk_norm));
                out.append(",\"gated_ffn\":");
                out.append(bool_text(custom.gated_ffn));
                out.append(",\"hidden_act\":\"");
                out.append(activation_text(custom.hidden_act));
                out.append("\",\"rope_theta\":");
                out.append(rope_theta);
                out.append("}");
                out
            },
            _ => "{\"error\": \"not Brumby\"}".to_owned(),
        }
    }
}

/// The smaller of two numbers.
pub open spec fn least(a: int, b: int) -> int {
    if a < b {
        a
    } else {
        b
    }
}

impl<C, V, M, E, S, H> WasmSession<C, Bundle<V, M, E, S, H>> {
    /// The weight of a norm: the head norm for a negative layer, otherwise the input norm
    /// of that layer.
    pub fn debug_norm_weight(&self, layer: i32) -> (r: Result<&V, SessionError>)
        ensures
            layer < 0 ==> (r matches Ok(w) && *w == self.runtime.model.tensor.head.ln.w),
            0 <= layer < self.runtime.model.tensor.layers@.len() ==> (r matches Ok(w) && *w
                == self.runtime.model.tensor.layers@[layer as int].input_ln.w),
            layer >= 0 && layer >= self.runtime.model.tensor.layers@.len() ==> (r matches Err(e)
                && e == SessionError::LayerOutOfBounds),
    {
        let tensor = &self.runtime.model.tensor;
        if layer < 0 {
            Ok(&tensor.head.ln.w)
        } else {
            let idx = layer as usize;
            if idx >= tensor.layers.len() {
                Err(SessionError::LayerOutOfBounds)
            } else {
                Ok(&tensor.layers[idx].input_ln.w)
            }
        }
    }

    /// What resets the model state to zeros, for starting a new conversation.
    pub fn reset_state(&self) -> (r: Reset)
        ensures
            r@ == reset_of(self.runtime.state.model()),
    {
        self.runtime.state.reset()
    }
}

/// How many values are read of a tensor of `len` values, where `count` are asked for.
pub fn debug_count(count: u32, len: usize) -> (r: usize)
    ensures
        r == least(count as int, len as int),
{
    let count = count as usize;
    if count < len {
        count
    } else {
        len
    }
}

/// The layers that are quantized: the first of them, as many as are asked for.
pub fn quant_map(quant_layers: u32, num_layer: usize) -> (r: HashMap<usize, Quant>)
    ensures
        forall|layer: usize| #[trigger]
            r@.contains_key(layer) <==> layer < quant_layers && layer < num_layer,
        forall|layer: usize| #[trigger] r@.contains_key(layer) ==> r@[layer] == Quant::Int8,
{
    let mut map: HashMap<usize, Quant> = HashMap::new();
    let bound = debug_count(quant_layers, num_layer);
    let mut layer: usize = 0;
    while layer < bound
        invariant
            layer <= bound,
            forall|l: usize| #[trigger] map@.contains_key(l) <==> l < layer,
            forall|l: usize| #[trigger] map@.contains_key(l) ==> map@[l] == Quant::Int8,
        decreases bound - layer,
    {
        map.insert(layer, Quant::Int8);
        layer += 1;
    }
    map
}

/// A result is a session over the tensors of a reader, whose model is still to be built
/// and which has no context yet.
pub open spec fn plans_session<R: Reader>(
    r: Result<WasmSession<(), BuildPlan<R>>, LoaderError>,
    model: R,
    token_chunk_size: u32,
    quant_layers: u32,
) -> bool {
    match info_outcome(&model) {
        InfoOutcome::Info(info) => {
            &&& r matches Ok(session)
            &&& session.token_chunk_size == chunk_of(token_chunk_size)
            &&& session.info == info
            &&& session.num_vocab == info.num_vocab
            &&& session.runtime.info == info
            &&& info.custom == ModelCustomInfo::Brumby(session.runtime.custom)
            &&& session.runtime.rescale == DEFAULT_RESCALE
            &&& session.runtime.sep == DEFAULT_SEP
            &&& session.runtime.loader.model == model
            &&& session.runtime.loader.lora@.len() == 0
            &&& group_lists(session.runtime.requests@) == quantized_lists(
                info,
                session.runtime.custom,
                quant_layers,
            )
        },
        outcome => r matches Err(e) && tells(&model, Some(Err(e)), outcome),
    }
}

/// The groups of requests for a model whose first layers are quantized.
pub open spec fn quantized_lists(info: ModelInfo, custom: CustomInfo, quant_layers: u32) -> Seq<
    Seq<RequestModel>,
> {
    Seq::new(
        (info.num_layer + 1) as nat,
        |i: int|
            if i == 0 {
                end_list(custom)
            } else {
                layer_list(
                    (i - 1) as usize,
                    custom,
                    if i - 1 < quant_layers {
                        Quant::Int8
                    } else {
                        Quant::Fp16
                    },
                )
            },
    )
}

impl<R: Reader> WasmSession<(), BuildPlan<R>> {
    /// Plans a session over the tensors of a reader. There is no plan where the model is
    /// not of the Brumby family, or its shapes make no sense.
    pub fn build_from_reader(model: R, token_chunk_size: u32, quant_layers: u32) -> (r: Option<
        Result<Self, LoaderError>,
    >)
        ensures
            r is Some <==> (match info_outcome(&model) {
                InfoOutcome::Info(info) => info.custom is Brumby,
                InfoOutcome::Nonsense => false,
                _ => true,
            }),
            r matches Some(result) ==> plans_session(
                result,
                model,
                token_chunk_size,
                quant_layers,
            ),
    {
        let info = match Loader::checked_info(&model) {
            Some(Ok(info)) => info,
            Some(Err(e)) => return Some(Err(e)),
            None => return None,
        };
        let quant = quant_map(quant_layers, info.num_layer);
        let ghost map = quant@;
        let builder = ModelBuilder { model, rescale: None, sep: None, lora: Vec::new(), quant };
        match builder.checked_build_brumby() {
            Some(Ok(build)) => {
                assert(group_lists(build.requests@) =~= quantized_lists(
                    info,
                    build.custom,
                    quant_layers,
                )) by {
                    assert forall|layer: usize| layer < info.num_layer implies #[trigger]
                        layer_quant(map, layer) == (if layer < quant_layers {
                        Quant::Int8
                    } else {
                        Quant::Fp16
                    }) by {
                        assert(map.contains_key(layer) <==> layer < quant_layers && layer
                            < info.num_layer);
                    }
                }
                Some(Ok(WasmSession::new((), build, info, token_chunk_size)))
            },
            Some(Err(e)) => Some(Err(e)),
            None => None,
        }
    }
}

impl<'a> WasmSession<(), BuildPlan<SafeTensors<'a>>> {
    /// Plans a session over a single (non-sharded) `.safetensors` file. There is no plan
    /// where the model is not of the Brumby family, or its shapes make no sense.
    pub fn create(model_data: &'a [u8], token_chunk_size: u32, quant_layers: u32) -> (r: Option<
        Result<Self, SessionError>,
    >)
        ensures
            !opens(model_data@) ==> (r matches Some(Err(e)) && e is BadFile),
            opens(model_data@) ==> exists|model: SafeTensors<'a>|
                archive_in(model_data@) == Some(stored_tensors(model))
                    && #[trigger] is_session_over(r, model, token_chunk_size, quant_layers),
    {
        match open(model_data) {
            Ok(model) => {
                let ghost archive = model;
                let r = match Self::build_from_reader(model, token_chunk_size, quant_layers) {
                    Some(Ok(session)) => Some(Ok(session)),
                    Some(Err(e)) => Some(Err(SessionError::Info(e))),
                    None => None,
                };
                assert(is_session_over(r, archive, token_chunk_size, quant_layers));
                r
            },
            Err(e) => Some(Err(SessionError::BadFile(e))),
        }
    }
}

/// A result is a session over the tensors of an archive, whose model is still to be
/// built.
pub open spec fn is_session_over<'a>(
    r: Option<Result<WasmSession<(), BuildPlan<SafeTensors<'a>>>, SessionError>>,
    model: SafeTensors<'a>,
    token_chunk_size: u32,
    quant_layers: u32,
) -> bool {
    match r {
        Some(Ok(session)) => plans_session(Ok(session), model, token_chunk_size, quant_layers),
        Some(Err(SessionError::Info(e))) => plans_session(
            Err(e),
            model,
            token_chunk_size,
            quant_layers,
        ),
        Some(Err(_)) => false,
        None => match info_outcome(&model) {
            InfoOutcome::Info(info) => info.custom !is Brumby,
            outcome => outcome is Nonsense,
        },
    }
}

/// What was added of a tensor.
pub open spec fn item<V, M, E>(shelf: Shelf<V, M, E>, key: Key) -> Option<
    Slot<Fetched<V>, M, E>,
> {
    match key {
        Key::Vector(name) => if shelf.vectors.contains_key(name) {
            Some(Slot::Vector(Fetched::Given(shelf.vectors[name])))
        } else {
            None
        },
        Key::Matrix(name) => if shelf.matrices.contains_key(name) {
            Some(Slot::Matrix(shelf.matrices[name]))
        } else {
            None
        },
        Key::Embed => match shelf.embed {
            Some(embed) => Some(Slot::Embed(embed)),
            None => None,
        },
    }
}

/// What a request gets: what was added of the tensor that it asks for, or zeros.
pub open spec fn answer<V, M, E>(shelf: Shelf<V, M, E>, request: RequestModel) -> Slot<
    Fetched<V>,
    M,
    E,
> {
    match key_of(request) {
        Some(key) => item(shelf, key)->Some_0,
        None => Slot::Vector(Fetched::Zeros),
    }
}

/// The tensors that the requests ask for were added.
pub open spec fn has_all<V, M, E>(shelf: Shelf<V, M, E>, requests: Seq<RequestModel>) -> bool {
    forall|i: int|
        0 <= i < requests.len() ==> (key_of(#[trigger] requests[i]) matches Some(key) ==> item(
            shelf,
            key,
        ) is Some)
}

/// One of the requests asks for a tensor.
spec fn asks_for(requests: Seq<RequestModel>, key: Key) -> bool {
    exists|i: int| 0 <= i < requests.len() && key_of(#[trigger] requests[i]) == Some(key)
}

proof fn lemma_fetch<V, M, E>(shelf: Shelf<V, M, E>, request: RequestModel)
    ensures
        fetch(shelf, request) is Some <==> (key_of(request) matches Some(key) ==> item(
            shelf,
            key,
        ) is Some),
        fetch(shelf, request) matches Some((slot, rest)) ==> slot == answer(shelf, request)
            && forall|key: Key| #[trigger]
            item(rest, key) == if key_of(request) == Some(key) {
                None
            } else {
                item(shelf, key)
            },
{
}

proof fn lemma_fetch_list<V, M, E>(shelf: Shelf<V, M, E>, requests: Seq<RequestModel>)
    requires
        distinct_keys(requests),
    ensures
        fetch_list(shelf, requests) is Ok <==> has_all(shelf, requests),
        fetch_list(shelf, requests) matches Ok((slots, rest)) ==> {
            &&& slots == requests.map_values(|request: RequestModel| answer(shelf, request))
            &&& forall|key: Key| #[trigger]
                item(rest, key) == if asks_for(requests, key) {
                    None
                } else {
                    item(shelf, key)
                }
        },
    decreases requests.len(),
{
    if requests.len() == 0 {
        assert(Seq::<Slot<Fetched<V>, M, E>>::empty() =~= requests.map_values(
            |request: RequestModel| answer(shelf, request),
        ));
    } else {
        let before = requests.drop_last();
        let last = requests.last();
        let n = before.len() as int;
        assert forall|i: int, j: int|
            0 <= i < j < before.len() && key_of(#[trigger] before[i]) is Some implies key_of(
            before[i],
        ) != key_of(#[trigger] before[j]) by {
            assert(before[i] == requests[i] && before[j] == requests[j]);
        }
        lemma_fetch_list(shelf, before);
        if let Some(key) = key_of(last) {
            assert(!asks_for(before, key)) by {
                if asks_for(before, key) {
                    let i = choose|i: int|
                        0 <= i < before.len() && key_of(#[trigger] before[i]) == Some(key);
                    assert(key_of(requests[i]) != key_of(requests[n]));
                }
            }
        }
        if has_all(shelf, requests) {
            assert forall|i: int| 0 <= i < before.len() implies (key_of(#[trigger] before[i])
                matches Some(key) ==> item(shelf, key) is Some) by {
                assert(before[i] == requests[i]);
            }
            assert(key_of(requests[n]) matches Some(key) ==> item(shelf, key) is Some);
        }
        if let Ok((slots, rest)) = fetch_list(shelf, before) {
            lemma_fetch(rest, last);
            if let Some((slot, left)) = fetch(rest, last) {
                assert(slot == answer(shelf, last));
                assert(slots.push(slot) =~= requests.map_values(
                    |request: RequestModel| answer(shelf, request),
                ));
                assert forall|i: int| 0 <= i < requests.len() implies (key_of(
                    #[trigger] requests[i],
                ) matches Some(key) ==> item(shelf, key) is Some) by {
                    if i < n {
                        assert(before[i] == requests[i]);
                    }
                }
                assert forall|key: Key| #[trigger]
                    item(left, key) == if asks_for(requests, key) {
                        None
                    } else {
                        item(shelf, key)
                    } by {
                    if asks_for(before, key) {
                        let i = choose|i: int|
                            0 <= i < before.len() && key_of(#[trigger] before[i]) == Some(key);
                        assert(key_of(requests[i]) == Some(key));
                    }
                    if key_of(last) == Some(key) {
                        assert(key_of(requests[n]) == Some(key));
                    }
                    if asks_for(requests, key) {
                        let i = choose|i: int|
                            0 <= i < requests.len() && key_of(#[trigger] requests[i]) == Some(key);
                        if i < n {
                            assert(key_of(before[i]) == Some(key));
                        }
                    }
                }
            }
        }
    }
}

/// Group `g` asks only for tensors of layer `g - 1`, or of none where there is no such
/// layer, and for each once.
spec fn group_fits(group: Seq<RequestModel>, g: int) -> bool {
    &&& distinct_keys(group)
    &&& forall|i: int|
        0 <= i < group.len() ==> (key_of(#[trigger] group[i]) matches Some(key) ==> key_layer(key)
            == if g == 0 {
            None
        } else {
            Some((g - 1) as usize)
        })
}

proof fn lemma_fetch_groups<V, M, E>(shelf: Shelf<V, M, E>, groups: Seq<Seq<RequestModel>>)
    requires
        groups.len() <= usize::MAX + 1,
        forall|g: int| 0 <= g < groups.len() ==> group_fits(#[trigger] groups[g], g),
    ensures
        fetch_groups(shelf, groups) is Ok <==> forall|g: int|
            0 <= g < groups.len() ==> has_all(shelf, #[trigger] groups[g]),
        fetch_groups(shelf, groups) matches Ok((done, rest)) ==> {
            &&& done == groups.map_values(
                |group: Seq<RequestModel>|
                    group.map_values(|request: RequestModel| answer(shelf, request)),
            )
            &&& forall|key: Key|
                (forall|g: int| 0 <= g < groups.len() ==> !asks_for(#[trigger] groups[g], key))
                    ==> #[trigger] item(rest, key) == item(shelf, key)
        },
    decreases groups.len(),
{
    let answers = |group: Seq<RequestModel>|
        group.map_values(|request: RequestModel| answer(shelf, request));
    if groups.len() == 0 {
        assert(Seq::<Seq<Slot<Fetched<V>, M, E>>>::empty() =~= groups.map_values(answers));
    } else {
        let before = groups.drop_last();
        let last = groups.last();
        let n = before.len() as int;
        assert forall|g: int| 0 <= g < before.len() implies group_fits(#[trigger] before[g], g) by {
            assert(before[g] == groups[g]);
        }
        assert(group_fits(groups[n], n));
        lemma_fetch_groups(shelf, before);
        if forall|g: int| 0 <= g < groups.len() ==> has_all(shelf, #[trigger] groups[g]) {
            assert forall|g: int| 0 <= g < before.len() implies has_all(
                shelf,
                #[trigger] before[g],
            ) by {
                assert(before[g] == groups[g]);
            }
            assert(has_all(shelf, groups[n]));
        }
        if let Ok((done, rest)) = fetch_groups(shelf, before) {
            lemma_fetch_list(rest, last);
            assert forall|i: int| 0 <= i < last.len() implies (key_of(#[trigger] last[i])
                matches Some(key) ==> item(rest, key) == item(shelf, key)) by {
                if let Some(key) = key_of(last[i]) {
                    assert forall|g: int| 0 <= g < before.len() implies !asks_for(
                        #[trigger] before[g],
                        key,
                    ) by {
                        if asks_for(before[g], key) {
                            let j = choose|j: int|
                                0 <= j < before[g].len() && key_of(#[trigger] before[g][j]) == Some(
                                    key,
                                );
                            assert(group_fits(before[g], g));
                            assert(key_of(before[g][j]) == Some(key));
                        }
                    }
                }
            }
            if has_all(rest, last) {
                assert(has_all(shelf, last));
            }
            if has_all(shelf, last) {
                assert(has_all(rest, last));
            }
            if let Ok((slots, left)) = fetch_list(rest, last) {
                assert(slots =~= answers(last));
                assert(done.push(slots) =~= groups.map_values(answers));
                assert forall|g: int| 0 <= g < groups.len() implies has_all(
                    shelf,
                    #[trigger] groups[g],
                ) by {
                    if g < n {
                        assert(before[g] == groups[g]);
                    }
                }
                assert forall|key: Key|
                    (forall|g: int|
                        0 <= g < groups.len() ==> !asks_for(#[trigger] groups[g], key)) implies
                    #[trigger] item(left, key) == item(shelf, key) by {
                    assert forall|g: int| 0 <= g < before.len() implies !asks_for(
                        #[trigger] before[g],
                        key,
                    ) by {
                        assert(before[g] == groups[g]);
                    }
                    assert(!asks_for(groups[n], key));
                }
            }
        }
    }
}

/// A model is built if and only if all its tensors were added, and each goes where its
/// name says: taking one leaves the others.
pub proof fn build_takes_what_was_added<V, M, E>(
    shelf: Shelf<V, M, E>,
    info: ModelInfo,
    custom: CustomInfo,
)
    ensures
        fetch_groups(shelf, wanted(info, custom)) is Ok <==> forall|g: int|
            0 <= g <= info.num_layer ==> has_all(shelf, #[trigger] wanted(info, custom)[g]),
        fetch_groups(shelf, wanted(info, custom)) matches Ok((done, _)) ==> done == wanted(
            info,
            custom,
        ).map_values(
            |group: Seq<RequestModel>|
                group.map_values(|request: RequestModel| answer(shelf, request)),
        ),
{
    let groups = wanted(info, custom);
    assert forall|g: int| 0 <= g < groups.len() implies group_fits(#[trigger] groups[g], g) by {
        if g == 0 {
            ends_ask_once(custom);
        } else {
            layer_asks_once((g - 1) as usize, custom, Quant::Fp16);
        }
    }
    lemma_fetch_groups(shelf, groups);
}

/// Tensors that are added one by one are quantized in the same layers as those of a whole
/// file: in a matrix of a layer, by the number of the layer alone.
pub proof fn quantizes_the_same_layers(
    info: ModelInfo,
    custom: CustomInfo,
    quant_layers: u32,
    layer: usize,
    i: int,
    dims: nat,
)
    requires
        layer < info.num_layer,
        dims > 1,
        0 <= i < layer_list(layer, custom, Quant::Fp16).len(),
        layer_list(layer, custom, Quant::Fp16)[i] is Matrix,
    ensures
        quantized_lists(info, custom, quant_layers)[layer + 1][i] matches Slot::Matrix(
            MatrixName::Stored(name, quant),
        ) && upload_of(name, dims, quant_layers) == (Upload::Matrix {
            quantize: quant == Quant::Int8,
        }),
{
    let quant = if layer < quant_layers {
        Quant::Int8
    } else {
        Quant::Fp16
    };
    let list = layer_list(layer, custom, quant);
    let plain = layer_list(layer, custom, Quant::Fp16);
    layer_kinds_agree(layer, layer, custom, quant, Quant::Fp16);
    assert(kinds_of(list)[i] == kind_of(list[i]));
    assert(kinds_of(plain)[i] == kind_of(plain[i]));
    assert(list.len() == kinds_of(list).len() == kinds_of(plain).len());
    layer_asks_once(layer, custom, quant);
    layer_matrices_are_stored(layer, custom, quant, i);
    assert(key_of(list[i]) matches Some(key) && key_layer(key) == Some(layer));
    reveal_strlit("model.embed_tokens.weight");
    reveal_strlit("lm_head.weight");
    reveal_strlit("model.layers.");
    let name = list[i]->Matrix_0->Stored_0;
    let prefix = "model.layers."@;
    assert(begins_with(name, prefix));
    assert(name[6] == prefix[6]) by {
        assert(name.take(prefix.len() as int)[6] == name[6]);
    }
    assert(name[0] == prefix[0]) by {
        assert(name.take(prefix.len() as int)[0] == name[0]);
    }
    assert(name != "model.embed_tokens.weight"@);
    assert(name != "lm_head.weight"@);
    assert(quantized_lists(info, custom, quant_layers)[layer + 1] == list);
}

/// What was uploaded, by name.
pub struct Shelf<V, M, E> {
    pub vectors: Map<Seq<char>, V>,
    pub matrices: Map<Seq<char>, M>,
    pub embed: Option<E>,
}

proof fn lemma_push_distinct(s: Seq<Seq<char>>, x: Seq<char>)
    requires
        s.no_duplicates(),
        !s.contains(x),
    ensures
        s.push(x).no_duplicates(),
{
    let t = s.push(x);
    assert forall|i: int, j: int| 0 <= i < t.len() && 0 <= j < t.len() && i != j implies t[i]
        != t[j] by {
        if i == s.len() {
            assert(s[j] != x);
        }
        if j == s.len() {
            assert(s[i] != x);
        }
    }
}

proof fn lemma_contains_push(s: Seq<Seq<char>>, x: Seq<char>)
    ensures
        forall|y: Seq<char>| #[trigger] s.push(x).contains(y) <==> s.contains(y) || y == x,
{
    assert forall|y: Seq<char>| #[trigger] s.push(x).contains(y) <==> s.contains(y) || y == x by {
        if s.contains(y) {
            let i = choose|i: int| 0 <= i < s.len() && s[i] == y;
            assert(s.push(x)[i] == y);
        }
        assert(s.push(x)[s.len() as int] == x);
    }
}

} // verus!
