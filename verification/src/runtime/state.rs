//! The state of a power-retention model.

use vstd::prelude::*;

use super::model::ModelInfo;

verus! {

/// The rows that hold the retention state of a layer: as many as a head is wide.
pub open spec fn head_rows(info: ModelInfo) -> int {
    info.num_emb as int / info.num_head as int
}

/// The sizes of a model are those of a state: heads divide the embedding, and there is
/// a further row.
pub open spec fn has_state(info: ModelInfo) -> bool {
    &&& info.num_head > 0
    &&& head_rows(info) < usize::MAX
}

/// The shape of a whole state: for each layer, the rows of the retention state and one
/// row for the token shift.
pub open spec fn whole_shape(info: ModelInfo) -> [usize; 4] {
    [info.num_emb, (head_rows(info) + 1) as usize, info.num_layer, 1]
}

/// Rows `start` to `end` of the state of a layer.
#[derive(Debug, Clone, Copy, PartialEq, Eq, Structural)]
pub struct StateRows {
    pub layer: usize,
    pub start: usize,
    pub end: usize,
}

/// Plane `batch` of the state of a layer, and plane `layer` of a whole state.
#[derive(Debug, Clone, Copy, PartialEq, Eq, Structural)]
pub struct StatePlane {
    pub layer: usize,
    pub batch: usize,
}

/// A tensor does not have the shape of a state.
#[derive(Debug, Clone, Copy, PartialEq, Eq, Structural)]
pub struct ShapeMismatch;

/// Power retention state.
///
/// For each layer, the state contains:
/// - The retention state matrix S: `[num_head, head_dim, head_dim]`
/// - A token shift register: `[num_emb]`
///
/// All packed into a single tensor per layer, of which there is one plane for each
/// batch. `T` stands for such a tensor.
#[derive(Debug)]
pub struct State<T> {
    info: ModelInfo,
    num_batch: usize,
    data: Vec<T>,
}

impl<T> State<T> {
    /// What is known of the model.
    pub closed spec fn model(&self) -> ModelInfo {
        self.info
    }

    /// The number of batches.
    pub closed spec fn batches(&self) -> usize {
        self.num_batch
    }

    /// The tensors of the layers.
    pub closed spec fn tensors(&self) -> Seq<T> {
        self.data@
    }

    /// There is one tensor for each layer.
    #[verifier::type_invariant]
    spec fn wf(&self) -> bool {
        &&& has_state(self.info)
        &&& self.data@.len() == self.info.num_layer
    }

    /// The state of a model, made of a tensor for each layer.
    pub fn new(info: ModelInfo, num_batch: usize, data: Vec<T>) -> (r: Self)
        requires
            has_state(info),
            data@.len() == info.num_layer,
        ensures
            r.model() == info,
            r.batches() == num_batch,
            r.tensors() == data@,
    {
        State { info, num_batch, data }
    }

    /// The tensor of a layer.
    pub fn tensor(&self, layer: usize) -> (r: &T)
        requires
            layer < self.tensors().len(),
        ensures
            *r == self.tensors()[layer as int],
    {
        &self.data[layer]
    }

    /// The number of batches.
    pub fn num_batch(&self) -> (r: usize)
        ensures
            r == self.batches(),
    {
        self.num_batch
    }

    /// The shape of a whole state.
    pub fn init_shape(&self) -> (r: [usize; 4])
        ensures
            r == whole_shape(self.model()),
    {
        proof {
            use_type_invariant(self);
        }
        let head_dim = self.info.num_emb / self.info.num_head;
        [self.info.num_emb, head_dim + 1, self.info.num_layer, 1]
    }

    /// The number of elements of a whole state, all of which are zero at first.
    pub fn init_len(&self) -> (r: usize)
        requires
            self.model().num_emb * (head_rows(self.model()) + 1) <= usize::MAX,
            self.model().num_emb * (head_rows(self.model()) + 1) * self.model().num_layer
                <= usize::MAX,
        ensures
            r == self.model().num_emb * (head_rows(self.model()) + 1) * self.model().num_layer,
    {
        proof {
            use_type_invariant(self);
        }
        let shape = self.init_shape();
        assert(shape[1] == head_rows(self.model()) + 1);
        shape[0] * shape[1] * shape[2]
    }

    /// The rows of a layer that hold the retention state.
    pub fn att(&self, layer: usize) -> (r: StateRows)
        ensures
            r == (StateRows { layer, start: 0, end: head_rows(self.model()) as usize }),
    {
        proof {
            use_type_invariant(self);
        }
        StateRows { layer, start: 0, end: self.info.num_emb / self.info.num_head }
    }

    /// The row of a layer that holds the token shift.
    pub fn ffn(&self, layer: usize) -> (r: StateRows)
        ensures
            r == (StateRows {
                layer,
                start: head_rows(self.model()) as usize,
                end: (head_rows(self.model()) + 1) as usize,
            }),
    {
        proof {
            use_type_invariant(self);
        }
        let head_dim = self.info.num_emb / self.info.num_head;
        StateRows { layer, start: head_dim, end: head_dim + 1 }
    }

    /// One plane of each layer.
    fn planes(&self, batch: usize) -> (r: Vec<StatePlane>)
        ensures
            r@ == planes_of(self.tensors().len(), batch),
    {
        let mut out: Vec<StatePlane> = Vec::new();
        let mut layer: usize = 0;
        while layer < self.data.len()
            invariant
                layer <= self.data@.len(),
                out@ =~= planes_of(layer as nat, batch),
            decreases self.data@.len() - layer,
        {
            out.push(StatePlane { layer, batch });
            layer += 1;
        }
        out
    }

    /// Whether a shape is that of a whole state.
    fn is_whole(&self, shape: [usize; 4]) -> (r: bool)
        ensures
            r == (shape@ == whole_shape(self.model())@),
    {
        let whole = self.init_shape();
        assert(shape@ =~= whole@ <==> shape[0] == whole[0] && shape[1] == whole[1] && shape[2]
            == whole[2] && shape[3] == whole[3]);
        shape[0] == whole[0] && shape[1] == whole[1] && shape[2] == whole[2] && shape[3]
            == whole[3]
    }

    /// The planes that a whole state in main memory, of the given shape, is loaded to.
    pub fn load(&self, shape: [usize; 4], batch: usize) -> (r: Result<
        Vec<StatePlane>,
        ShapeMismatch,
    >)
        ensures
            r is Ok <==> shape@ == whole_shape(self.model())@,
            r matches Ok(planes) ==> planes@ == planes_of(self.tensors().len(), batch),
    {
        if self.is_whole(shape) {
            Ok(self.planes(batch))
        } else {
            Err(ShapeMismatch)
        }
    }

    /// The planes that a whole state, of the given shape, is written to.
    pub fn write(&self, shape: [usize; 4], batch: usize) -> (r: Result<
        Vec<StatePlane>,
        ShapeMismatch,
    >)
        ensures
            r is Ok <==> shape@ == whole_shape(self.model())@,
            r matches Ok(planes) ==> planes@ == planes_of(self.tensors().len(), batch),
    {
        if self.is_whole(shape) {
            Ok(self.planes(batch))
        } else {
            Err(ShapeMismatch)
        }
    }

    /// The shape of a whole state, and the planes that one is read from.
    pub fn read(&self, batch: usize) -> (r: ([usize; 4], Vec<StatePlane>))
        ensures
            r.0 == whole_shape(self.model()),
            r.1@ == planes_of(self.tensors().len(), batch),
    {
        (self.init_shape(), self.planes(batch))
    }

    /// The shape of what one batch has of a layer, and the planes that a whole state is
    /// stacked from.
    pub fn back(&self, batch: usize) -> (r: ([usize; 4], Vec<StatePlane>))
        ensures
            r.0 == [self.model().num_emb, (head_rows(self.model()) + 1) as usize, 1, 1],
            r.1@ == planes_of(self.tensors().len(), batch),
    {
        let whole = self.init_shape();
        ([whole[0], whole[1], 1, 1], self.planes(batch))
    }

    /// What starts a new conversation: the initial state is loaded to the first batch.
    pub fn reset(&self) -> (r: Reset)
        ensures
            r@ == reset_of(self.model()),
    {
        proof {
            use_type_invariant(self);
        }
        let shape = self.init_shape();
        match self.load(shape, 0) {
            Ok(planes) => Reset { shape, planes, fill: ZERO_BITS, rope_position: 0 },
            Err(_) => vstd::pervasive::unreached(),
        }
    }

    /// The row of a whole state that is a layer's embedding: its first.
    pub fn embed(&self, layer: usize) -> (r: StateRows)
        ensures
            r == (StateRows { layer, start: 0, end: 1 }),
    {
        StateRows { layer, start: 0, end: 1 }
    }
}

/// The rows of the retention state and of the token shift do not overlap, and make up all
/// rows of a state.
pub proof fn rows_make_up_state(info: ModelInfo, row: int)
    requires
        has_state(info),
    ensures
        0 <= row < whole_shape(info)[1] <==> (0 <= row < head_rows(info)) != (head_rows(info) <= row
            < head_rows(info) + 1),
{
    vstd::arithmetic::div_mod::lemma_div_pos_is_pos(info.num_emb as int, info.num_head as int);
}

/// Plane `batch` of each layer.
pub open spec fn planes_of(num_layer: nat, batch: usize) -> Seq<StatePlane> {
    Seq::new(num_layer, |layer: int| StatePlane { layer: layer as usize, batch })
}

/// The shapes of the tensors that a state is made of, one for each layer.
pub fn state_shapes(info: &ModelInfo, num_batch: usize) -> (r: Vec<[usize; 4]>)
    requires
        has_state(*info),
    ensures
        r@ == Seq::new(
            info.num_layer as nat,
            |layer: int| [info.num_emb, (head_rows(*info) + 1) as usize, num_batch, 1],
        ),
{
    let head_dim = info.num_emb / info.num_head;
    let shape = [info.num_emb, head_dim + 1, num_batch, 1];
    let mut out: Vec<[usize; 4]> = Vec::new();
    let mut layer: usize = 0;
    while layer < info.num_layer
        invariant
            layer <= info.num_layer,
            out@ =~= Seq::new(layer as nat, |layer: int| shape),
        decreases info.num_layer - layer,
    {
        out.push(shape);
        layer += 1;
    }
    assert(out@ =~= Seq::new(
        info.num_layer as nat,
        |layer: int| [info.num_emb, (head_rows(*info) + 1) as usize, num_batch, 1],
    ));
    out
}

/// The planes of the layers after planes of a whole state were written to them.
/// `layers[l][b]` is plane `b` of layer `l`.
pub open spec fn written<P>(
    planes: Seq<StatePlane>,
    layers: Seq<Seq<P>>,
    whole: Seq<P>,
) -> Seq<Seq<P>>
    decreases planes.len(),
{
    if planes.len() == 0 {
        layers
    } else {
        let before = written(planes.drop_last(), layers, whole);
        let at = planes.last();
        before.update(
            at.layer as int,
            before[at.layer as int].update(at.batch as int, whole[at.layer as int]),
        )
    }
}

/// The whole state that planes of the layers are read to, where `whole` was before.
pub open spec fn read_back<P>(
    planes: Seq<StatePlane>,
    layers: Seq<Seq<P>>,
    whole: Seq<P>,
) -> Seq<P>
    decreases planes.len(),
{
    if planes.len() == 0 {
        whole
    } else {
        let at = planes.last();
        read_back(planes.drop_last(), layers, whole).update(
            at.layer as int,
            layers[at.layer as int][at.batch as int],
        )
    }
}

proof fn lemma_written<P>(n: nat, batch: usize, layers: Seq<Seq<P>>, whole: Seq<P>)
    requires
        n <= layers.len(),
        n <= usize::MAX,
        whole.len() == layers.len(),
        forall|l: int| 0 <= l < layers.len() ==> batch < (#[trigger] layers[l]).len(),
    ensures
        written(planes_of(n, batch), layers, whole) == Seq::new(
            layers.len(),
            |l: int|
                if l < n {
                    layers[l].update(batch as int, whole[l])
                } else {
                    layers[l]
                },
        ),
    decreases n,
{
    let planes = planes_of(n, batch);
    let expected = Seq::new(
        layers.len(),
        |l: int|
            if l < n {
                layers[l].update(batch as int, whole[l])
            } else {
                layers[l]
            },
    );
    if n > 0 {
        let k = (n - 1) as nat;
        assert(planes.drop_last() =~= planes_of(k, batch));
        lemma_written(k, batch, layers, whole);
        assert(planes.last() == (StatePlane { layer: k as usize, batch }));
        assert(written(planes, layers, whole) =~= expected);
    } else {
        assert(layers =~= expected);
    }
}

proof fn lemma_read_back<P>(n: nat, batch: usize, layers: Seq<Seq<P>>, whole: Seq<P>)
    requires
        n <= layers.len(),
        n <= usize::MAX,
        whole.len() == layers.len(),
    ensures
        read_back(planes_of(n, batch), layers, whole) == Seq::new(
            layers.len(),
            |l: int|
                if l < n {
                    layers[l][batch as int]
                } else {
                    whole[l]
                },
        ),
    decreases n,
{
    let planes = planes_of(n, batch);
    let expected = Seq::new(
        layers.len(),
        |l: int|
            if l < n {
                layers[l][batch as int]
            } else {
                whole[l]
            },
    );
    if n > 0 {
        let k = (n - 1) as nat;
        assert(planes.drop_last() =~= planes_of(k, batch));
        lemma_read_back(k, batch, layers, whole);
        assert(planes.last() == (StatePlane { layer: k as usize, batch }));
        assert(read_back(planes, layers, whole) =~= expected);
    } else {
        assert(whole =~= expected);
    }
}

/// Reading a batch gives back what was written to it, and writing a batch leaves the
/// others as they were.
pub proof fn read_undoes_write<P>(
    num_layer: usize,
    batch: usize,
    layers: Seq<Seq<P>>,
    whole: Seq<P>,
    fresh: Seq<P>,
)
    requires
        layers.len() == num_layer,
        whole.len() == num_layer,
        fresh.len() == num_layer,
        forall|l: int| 0 <= l < num_layer ==> batch < (#[trigger] layers[l]).len(),
    ensures
        read_back(
            planes_of(num_layer as nat, batch),
            written(planes_of(num_layer as nat, batch), layers, whole),
            fresh,
        ) == whole,
        forall|l: int, b: int|
            0 <= l < num_layer && 0 <= b < layers[l].len() && b != batch ==> #[trigger] written(
                planes_of(num_layer as nat, batch),
                layers,
                whole,
            )[l][b] == layers[l][b],
{
    let planes = planes_of(num_layer as nat, batch);
    lemma_written(num_layer as nat, batch, layers, whole);
    let after = written(planes, layers, whole);
    lemma_read_back(num_layer as nat, batch, after, fresh);
    assert(read_back(planes, after, fresh) =~= whole);
}

/// A batch that was reset, which is to load the initial state, in which every plane is
/// `zero`, reads back as that state. To reset it once more changes nothing.
pub proof fn reset_reads_initial_state<P>(
    num_layer: usize,
    batch: usize,
    layers: Seq<Seq<P>>,
    zero: P,
    fresh: Seq<P>,
)
    requires
        layers.len() == num_layer,
        fresh.len() == num_layer,
        forall|l: int| 0 <= l < num_layer ==> batch < (#[trigger] layers[l]).len(),
    ensures
        ({
            let planes = planes_of(num_layer as nat, batch);
            let initial = Seq::new(num_layer as nat, |l: int| zero);
            let reset = written(planes, layers, initial);
            &&& read_back(planes, reset, fresh) == initial
            &&& written(planes, reset, initial) == reset
        }),
{
    let planes = planes_of(num_layer as nat, batch);
    let initial = Seq::new(num_layer as nat, |l: int| zero);
    read_undoes_write(num_layer, batch, layers, initial, fresh);
    lemma_written(num_layer as nat, batch, layers, initial);
    let reset = written(planes, layers, initial);
    lemma_written(num_layer as nat, batch, reset, initial);
    assert forall|l: int| 0 <= l < num_layer implies reset[l].update(batch as int, initial[l])
        == reset[l] by {
        assert(reset[l].update(batch as int, initial[l]) =~= reset[l]);
    }
    assert(written(planes, reset, initial) =~= reset);
}

/// The bits of the 32-bit float `0.0`.
pub const ZERO_BITS: u32 = 0;

/// What starts a new conversation.
#[derive(Debug, PartialEq, Eq)]
pub struct Reset {
    /// The shape of the whole state that is loaded.
    pub shape: [usize; 4],
    /// The planes that it is loaded to.
    pub planes: Vec<StatePlane>,
    /// The bits of the 32-bit float that the elements of that state are, and that the sums
    /// of keys are set to.
    pub fill: u32,
    /// The position that the rotary embedding goes on from.
    pub rope_position: usize,
}

/// A `Reset` as plain values.
pub struct ResetModel {
    pub shape: Seq<usize>,
    pub planes: Seq<StatePlane>,
    pub fill: u32,
    pub rope_position: usize,
}

impl View for Reset {
    type V = ResetModel;

    open spec fn view(&self) -> ResetModel {
        ResetModel {
            shape: self.shape@,
            planes: self.planes@,
            fill: self.fill,
            rope_position: self.rope_position,
        }
    }
}

/// What starts a new conversation with a model: its first batch is filled with zeros, and
/// so are the sums of keys, and the position is zero.
pub open spec fn reset_of(info: ModelInfo) -> ResetModel {
    ResetModel {
        shape: whole_shape(info)@,
        planes: planes_of(info.num_layer as nat, 0),
        fill: ZERO_BITS,
        rope_position: 0,
    }
}

/// What a session keeps of a conversation: the planes of the layers, where
/// `layers[l][b]` is plane `b` of layer `l`, the position that the rotary embedding goes on
/// from, and the sums of keys. Floats stand as their bits.
#[verifier::ext_equal]
pub struct Conversation {
    pub layers: Seq<Seq<Seq<u32>>>,
    pub rope_position: usize,
    pub key_sums: Seq<u32>,
}

/// A plane whose elements are all the same.
pub open spec fn filled_plane(reset: ResetModel) -> Seq<u32> {
    Seq::new((reset.shape[0] * reset.shape[1]) as nat, |i: int| reset.fill)
}

/// What is kept after a reset.
pub open spec fn after_reset(c: Conversation, reset: ResetModel) -> Conversation {
    Conversation {
        layers: written(
            reset.planes,
            c.layers,
            Seq::new(reset.shape[2] as nat, |l: int| filled_plane(reset)),
        ),
        rope_position: reset.rope_position,
        key_sums: Seq::new(c.key_sums.len(), |i: int| reset.fill),
    }
}

/// Nothing was said yet: the first batch is zero in every element of every layer, the
/// position is zero, and so are the sums of keys.
pub open spec fn is_new(c: Conversation, info: ModelInfo) -> bool {
    &&& c.layers.len() == info.num_layer
    &&& forall|l: int|
        0 <= l < c.layers.len() ==> (#[trigger] c.layers[l]).len() > 0 && c.layers[l][0]
            == Seq::new(
            (info.num_emb * (head_rows(info) + 1)) as nat,
            |i: int| ZERO_BITS,
        )
    &&& c.rope_position == 0
    &&& forall|i: int| 0 <= i < c.key_sums.len() ==> #[trigger] c.key_sums[i] == ZERO_BITS
}

/// After a reset the conversation is a new one, whatever was kept before, and the other
/// batches are as they were. A second reset changes nothing more.
pub proof fn reset_starts_anew(c: Conversation, info: ModelInfo)
    requires
        has_state(info),
        c.layers.len() == info.num_layer,
        forall|l: int| 0 <= l < c.layers.len() ==> (#[trigger] c.layers[l]).len() > 0,
    ensures
        is_new(after_reset(c, reset_of(info)), info),
        forall|l: int, b: int|
            0 <= l < c.layers.len() && 0 < b < c.layers[l].len() ==> #[trigger] after_reset(
                c,
                reset_of(info),
            ).layers[l][b] == c.layers[l][b],
        after_reset(after_reset(c, reset_of(info)), reset_of(info)) == after_reset(
            c,
            reset_of(info),
        ),
{
    let reset = reset_of(info);
    let after = after_reset(c, reset);
    vstd::arithmetic::div_mod::lemma_div_pos_is_pos(info.num_emb as int, info.num_head as int);
    let initial = Seq::new(info.num_layer as nat, |l: int| filled_plane(reset));
    assert(Seq::new(reset.shape[2] as nat, |l: int| filled_plane(reset)) =~= initial);
    lemma_written(info.num_layer as nat, 0, c.layers, initial);
    assert(filled_plane(reset) =~= Seq::new(
        (info.num_emb * (head_rows(info) + 1)) as nat,
        |i: int| ZERO_BITS,
    ));
    reset_reads_initial_state(info.num_layer, 0, c.layers, filled_plane(reset), initial);
    assert(after_reset(after, reset) =~= after);
}

} // verus!
