//! A model with its state and hooks, ready for inference.

use vstd::prelude::*;

use super::brumby::{Header, Hook, Model, Runtime};
use super::dispatch::{dispatch_ops, Op};
use super::model::ModelInfo;
use super::state::{has_state, State};

verus! {

/// What hooks add, as a map.
pub open spec fn hooks_map<H>(entries: Seq<(Hook, H)>) -> Map<Hook, H>
    decreases entries.len(),
{
    if entries.len() == 0 {
        Map::empty()
    } else {
        hooks_map(entries.drop_last()).insert(entries.last().0, entries.last().1)
    }
}

/// What hooks add, for which `H` stands.
#[verifier::reject_recursive_types(H)]
#[derive(Debug)]
pub struct HookMap<H> {
    entries: Vec<(Hook, H)>,
}

impl<H> View for HookMap<H> {
    type V = Map<Hook, H>;

    closed spec fn view(&self) -> Map<Hook, H> {
        hooks_map(self.entries@)
    }
}

impl<H> HookMap<H> {
    /// No hooks.
    pub fn new() -> (r: Self)
        ensures
            r@ == Map::<Hook, H>::empty(),
    {
        HookMap { entries: Vec::new() }
    }

    /// Sets what a hook adds, whatever it was before.
    pub fn insert(&mut self, hook: Hook, value: H)
        ensures
            final(self)@ == old(self)@.insert(hook, value),
    {
        let ghost before = self.entries@;
        self.entries.push((hook, value));
        assert(self.entries@.drop_last() =~= before);
    }

    /// What a hook adds, if anything.
    pub fn get(&self, hook: &Hook) -> (r: Option<&H>)
        ensures
            r is Some <==> self@.contains_key(*hook),
            r matches Some(value) ==> *value == self@[*hook],
    {
        let mut i: usize = self.entries.len();
        let ghost all = self.entries@;
        assert(all.take(i as int) =~= all);
        while i > 0
            invariant
                i <= all.len(),
                all == self.entries@,
                hooks_map(all).contains_key(*hook) <==> hooks_map(
                    all.take(i as int),
                ).contains_key(*hook),
                hooks_map(all).contains_key(*hook) ==> hooks_map(all)[*hook] == hooks_map(
                    all.take(i as int),
                )[*hook],
            decreases i,
        {
            i -= 1;
            assert(all.take(i + 1).drop_last() =~= all.take(i as int));
            assert(all.take(i + 1).last() == all[i as int]);
            if self.entries[i].0 == *hook {
                return Some(&self.entries[i].1);
            }
        }
        None
    }
}

/// What an inference works on: the state, and the shapes of the buffers.
#[derive(Debug)]
pub struct Frame<'a, T> {
    pub state: &'a State<T>,
    pub buffer: Runtime<[usize; 4]>,
    pub header: Header<[usize; 4]>,
}

/// An inference that is ready to run.
#[derive(Debug)]
pub struct RnnJob<'a, V, M, E, T> {
    /// The operations that were not submitted yet, in order.
    pub commands: Vec<Op<'a, V, M>>,
    /// The embedding table.
    pub embed: &'a E,
    /// What the operations work on.
    pub frame: Frame<'a, T>,
}

impl<'a, V, M, E, T> RnnJob<'a, V, M, E, T> {
    /// Hands the operations out, once.
    pub fn submit(&mut self) -> (r: Vec<Op<'a, V, M>>)
        ensures
            r@ == old(self).commands@,
            final(self).commands@ == Seq::<Op<'a, V, M>>::empty(),
            final(self).embed == old(self).embed,
            final(self).frame == old(self).frame,
    {
        let mut commands: Vec<Op<'a, V, M>> = Vec::new();
        std::mem::swap(&mut commands, &mut self.commands);
        commands
    }
}

/// A model with its state and hooks. `V`, `M` and `E` stand for the tensors of the
/// model, `T` for those of the state, and `H` for what hooks add.
#[verifier::reject_recursive_types(H)]
pub struct Bundle<V, M, E, T, H> {
    pub model: Model<V, M, E>,
    pub state: State<T>,
    pub hooks: HookMap<H>,
}

/// The sizes of a model are those of its buffers: none of them is too large.
pub open spec fn has_buffers(info: ModelInfo) -> bool {
    &&& info.custom is Brumby
    &&& info.custom->Brumby_0.num_kv_head * info.custom->Brumby_0.head_dim <= usize::MAX
    &&& info.padded_vocab() <= usize::MAX
}

impl<V, M, E, T, H> Bundle<V, M, E, T, H> {
    /// A model with a state of zeros, which is made of a tensor for each layer, and no
    /// hooks.
    pub fn new(model: Model<V, M, E>, num_batch: usize, data: Vec<T>) -> (r: Self)
        requires
            has_state(model.info),
            data@.len() == model.info.num_layer,
        ensures
            r.model == model,
            r.state.model() == model.info,
            r.state.batches() == num_batch,
            r.state.tensors() == data@,
            r.hooks@ == Map::<Hook, H>::empty(),
    {
        let state = State::new(model.info, num_batch, data);
        Bundle { model, state, hooks: HookMap::new() }
    }

    /// A model with a state of zeros, which is made of a tensor for each layer, and
    /// hooks.
    pub fn new_with_hooks(
        model: Model<V, M, E>,
        num_batch: usize,
        data: Vec<T>,
        hooks: HookMap<H>,
    ) -> (r: Self)
        requires
            has_state(model.info),
            data@.len() == model.info.num_layer,
        ensures
            r.model == model,
            r.state.model() == model.info,
            r.state.batches() == num_batch,
            r.state.tensors() == data@,
            r.hooks == hooks,
    {
        let state = State::new(model.info, num_batch, data);
        Bundle { model, state, hooks }
    }

    /// What is known of the model.
    pub fn info(&self) -> (r: ModelInfo)
        ensures
            r == self.model.info,
    {
        self.model.info
    }

    /// What a hook adds, if anything.
    pub fn hook_op(&self, hook: &Hook) -> (r: Option<&H>)
        ensures
            r is Some <==> self.hooks@.contains_key(*hook),
            r matches Some(value) ==> *value == self.hooks@[*hook],
    {
        self.hooks.get(hook)
    }

    /// Readies an inference of a number of tokens, of which some have an output.
    pub fn dispatch(&self, num_token: usize, num_header: usize) -> (r: RnnJob<'_, V, M, E, T>)
        requires
            has_state(self.model.info),
            has_buffers(self.model.info),
            self.model.sep > 0 || num_token == 0 || self.model.tensor.layers@.len() == 0,
        ensures
            r.commands@ == dispatch_ops(self.model, num_token, num_header),
            *r.embed == self.model.tensor.embed.w,
            *r.frame.state == self.state,
            r.frame.buffer == Runtime::shapes(self.model.info, num_token),
            r.frame.header == Header::shapes(self.model.info, num_header),
    {
        let buffer = Runtime::new(&self.model.info, num_token);
        let header = Header::new(&self.model.info, num_header);
        let commands = self.model.ops(num_token, num_header);
        RnnJob {
            commands,
            embed: &self.model.tensor.embed.w,
            frame: Frame { state: &self.state, buffer, header },
        }
    }
}

} // verus!
