//! The graph: an append-only arena of tensors and gradients, and the record
//! of the operations that produced the derived tensors.

use crate::funcs::{Function, Loss};
use crate::optimizer::Optimizer;
use crate::random::next_word;
use crate::scalar::Scalar;
use crate::tensor::{Tensor, TensorError, TensorModel};
use model::{
    accumulate, accumulate_all, backward_from, backward_spec, budget, drawn, embed_spec,
    first_missing, forward_from, gather, lemma_found_stays, lemma_none_missing, lemma_selected,
    selected, store, GraphModel,
};
use rand::rngs::StdRng;
use std::collections::HashSet;
use vstd::prelude::*;

pub mod laws;
pub mod model;

verus! {

/// The handle of a tensor: its position in the arena. Handles are given
/// out in increasing order and stay valid for the life of the graph.
pub type TensorId = usize;

/// What a graph operation can fail with.
#[derive(Debug, Clone, Copy, PartialEq, Eq, Structural)]
pub enum GraphError {
    /// A tensor operation failed.
    TensorError(TensorError),
    /// No tensor has this id.
    TensorNotFound(usize),
}

impl From<TensorError> for GraphError {
    fn from(e: TensorError) -> (r: GraphError) {
        GraphError::TensorError(e)
    }
}

impl vstd::std_specs::convert::FromSpecImpl<TensorError> for GraphError {
    open spec fn obeys_from_spec() -> bool {
        true
    }

    open spec fn from_spec(e: TensorError) -> GraphError {
        GraphError::TensorError(e)
    }
}

/// How a derived tensor was produced: the operation and the ids of its
/// inputs, in their order.
pub struct Computation<F> {
    pub out: TensorId,
    pub inps: Vec<TensorId>,
    pub func: F,
}

/// The graph: tensors, their gradients, their names, and the computation
/// records in the order of their creation.
pub struct Graph<V, F = Box<dyn Function<V>>> {
    tensors: Vec<Tensor<V>>,
    grads: Vec<Tensor<V>>,
    names: Vec<String>,
    computations: Vec<Computation<F>>,
}

impl<V, F> View for Graph<V, F> {
    type V = GraphModel<V, F>;

    closed spec fn view(&self) -> GraphModel<V, F> {
        GraphModel {
            tensors: crate::tensor::owned_models(self.tensors@),
            grads: crate::tensor::owned_models(self.grads@),
            names: Seq::new(self.names@.len(), |i: int| self.names@[i]@),
            records: self.computations@,
        }
    }
}

impl<V: Scalar, F: Function<V>> Graph<V, F> {
    /// Whether the graph is well formed. Every graph that this module
    /// hands out is, and every method keeps it so.
    pub open spec fn wf(&self) -> bool {
        self@.wf()
    }

    /// The empty graph.
    pub fn new() -> (r: Self)
        ensures
            r.wf(),
            r@.tensors.len() == 0,
            r@.grads.len() == 0,
            r@.names.len() == 0,
            r@.records.len() == 0,
    {
        Graph {
            tensors: Vec::new(),
            grads: Vec::new(),
            names: Vec::new(),
            computations: Vec::new(),
        }
    }

    /// The number of tensors.
    pub fn len(&self) -> (r: usize)
        ensures
            r == self@.tensors.len(),
    {
        self.tensors.len()
    }

    /// Appends a leaf: the tensor, a zero gradient of its shape, and the
    /// name. No computation is recorded.
    pub fn allocate(&mut self, t: Tensor<V>, name: String) -> (id: TensorId)
        requires
            old(self).wf(),
        ensures
            final(self).wf(),
            id == old(self)@.tensors.len(),
            final(self)@.tensors == old(self)@.tensors.push(t@),
            final(self)@.grads == old(self)@.grads.push(t@.zeros_like()),
            final(self)@.names == old(self)@.names.push(name@),
            final(self)@.records == old(self)@.records,
            final(self)@.is_leaf(id),
            old(self)@.shapes_agree() ==> final(self)@.shapes_agree(),
    {
        let id: usize = self.tensors.len();
        self.grads.push(t.zeros_like());
        self.tensors.push(t);
        self.names.push(name);
        proof {
            assert(final(self)@.tensors =~= old(self)@.tensors.push(t@));
            assert(final(self)@.grads =~= old(self)@.grads.push(t@.zeros_like()));
            assert(final(self)@.names =~= old(self)@.names.push(name@));
            assert(final(self)@.records =~= old(self)@.records);
        }
        id
    }

    /// The tensor with this id, if the id was given out.
    pub fn get(&self, id: TensorId) -> (r: Result<&Tensor<V>, GraphError>)
        ensures
            match r {
                Ok(t) => id < self@.tensors.len() && t@ == self@.tensors[id as int],
                Err(e) => id >= self@.tensors.len() && e == GraphError::TensorNotFound(id),
            },
    {
        if id < self.tensors.len() {
            Ok(&self.tensors[id])
        } else {
            Err(GraphError::TensorNotFound(id))
        }
    }

    /// The gradient accumulated for this id, if the id was given out.
    pub fn get_grad(&self, id: TensorId) -> (r: Result<&Tensor<V>, GraphError>)
        ensures
            match r {
                Ok(t) => id < self@.grads.len() && t@ == self@.grads[id as int],
                Err(e) => id >= self@.grads.len() && e == GraphError::TensorNotFound(id),
            },
    {
        if id < self.grads.len() {
            Ok(&self.grads[id])
        } else {
            Err(GraphError::TensorNotFound(id))
        }
    }

    /// The name given to this id, if the id was given out.
    pub fn name_of(&self, id: TensorId) -> (r: Result<&String, GraphError>)
        ensures
            match r {
                Ok(s) => id < self@.names.len() && s@ == self@.names[id as int],
                Err(e) => id >= self@.names.len() && e == GraphError::TensorNotFound(id),
            },
    {
        if id < self.names.len() {
            Ok(&self.names[id])
        } else {
            Err(GraphError::TensorNotFound(id))
        }
    }
}

fn accumulate_into<V: Scalar>(
    tensors: &Vec<Tensor<V>>,
    grads: &mut Vec<Tensor<V>>,
    id: TensorId,
    add: &Tensor<V>,
) -> (r: Result<(), GraphError>)
    requires
        old(grads)@.len() == tensors@.len(),
    ensures
        final(grads)@.len() == tensors@.len(),
        (crate::tensor::owned_models(final(grads)@), r) == accumulate(
            crate::tensor::owned_models(tensors@),
            crate::tensor::owned_models(old(grads)@),
            id,
            add@,
        ),
{
    if id >= tensors.len() {
        return Err(GraphError::TensorNotFound(id));
    }
    let rank: usize = tensors[id].dim();
    let sum = if add.dim() > rank {
        match add.sum_leading(rank) {
            Ok(reduced) => grads[id].plus(&reduced),
            Err(e) => Err(e),
        }
    } else {
        grads[id].plus(add)
    };
    match sum {
        Ok(g) => {
            grads[id] = g;
            proof {
                assert(crate::tensor::owned_models(grads@) =~= crate::tensor::owned_models(
                    old(grads)@,
                ).update(id as int, g@));
            }
            Ok(())
        },
        Err(e) => Err(GraphError::TensorError(e)),
    }
}

impl<V: Scalar, F: Function<V>> Graph<V, F> {
    /// Appends a leaf of the given shape whose elements are drawn from the
    /// generator, in the order of the elements. It fails only for a shape
    /// that describes more elements than a machine word counts.
    pub fn alloc_rand(&mut self, rng: &mut StdRng, shape: &[usize], name: String) -> (r: Result<
        TensorId,
        GraphError,
    >)
        requires
            old(self).wf(),
        ensures
            final(self).wf(),
            old(self)@.shapes_agree() ==> final(self)@.shapes_agree(),
            match r {
                Ok(id) => {
                    let t = final(self)@.tensors[id as int];
                    &&& crate::shape::product(shape@) <= usize::MAX
                    &&& id == old(self)@.tensors.len()
                    &&& t.shape == shape@
                    &&& t.blob.len() == crate::shape::product(shape@)
                    &&& drawn(t.blob)
                    &&& final(self)@.tensors == old(self)@.tensors.push(t)
                    &&& final(self)@.grads == old(self)@.grads.push(t.zeros_like())
                    &&& final(self)@.names == old(self)@.names.push(name@)
                    &&& final(self)@.records == old(self)@.records
                },
                Err(e) => {
                    &&& crate::shape::product(shape@) > usize::MAX
                    &&& e == GraphError::TensorError(TensorError::MalformedBuffer)
                    &&& final(self)@ == old(self)@
                },
            },
    {
        let count: usize = match crate::shape::checked_product(shape) {
            Some(count) => count,
            None => {
                return Err(GraphError::TensorError(TensorError::MalformedBuffer));
            },
        };
        let mut samples: Vec<V> = Vec::new();
        let ghost mut words: Seq<u32> = Seq::empty();
        let mut i: usize = 0;
        while i < count
            invariant
                i <= count,
                samples@.len() == i,
                words.len() == i,
                forall|q: int| 0 <= q < i ==> samples@[q] == V::from_word_spec(#[trigger] words[q]),
            decreases count - i,
        {
            let word: u32 = next_word(rng);
            samples.push(V::from_word(word));
            proof {
                words = words.push(word);
            }
            i += 1;
        }
        proof {
            assert(drawn(samples@)) by {
                assert(words.len() == samples@.len());
            }
        }
        match Tensor::raw(shape, samples) {
            Ok(t) => Ok(self.allocate(t, name)),
            Err(e) => Err(GraphError::TensorError(e)),
        }
    }

    /// Overwrites the tensor with this id.
    pub fn load(&mut self, tensor_id: TensorId, tensor: &Tensor<V>) -> (r: Result<(), GraphError>)
        requires
            old(self).wf(),
        ensures
            final(self).wf(),
            final(self)@.grads == old(self)@.grads,
            final(self)@.names == old(self)@.names,
            final(self)@.records == old(self)@.records,
            match r {
                Ok(_) => tensor_id < old(self)@.tensors.len() && final(self)@.tensors
                    == old(self)@.tensors.update(tensor_id as int, tensor@),
                Err(e) => tensor_id >= old(self)@.tensors.len() && e == GraphError::TensorNotFound(
                    tensor_id,
                ) && final(self)@.tensors == old(self)@.tensors,
            },
    {
        if tensor_id >= self.tensors.len() {
            return Err(GraphError::TensorNotFound(tensor_id));
        }
        self.tensors[tensor_id] = tensor.clone();
        proof {
            assert(final(self)@.tensors =~= old(self)@.tensors.update(tensor_id as int, tensor@));
            assert(final(self)@.grads =~= old(self)@.grads);
            assert(final(self)@.names =~= old(self)@.names);
            assert(final(self)@.records =~= old(self)@.records);
        }
        Ok(())
    }

    /// Overwrites the gradient with this id.
    pub fn load_grad(&mut self, tensor_id: TensorId, tensor: &Tensor<V>) -> (r: Result<
        (),
        GraphError,
    >)
        requires
            old(self).wf(),
        ensures
            final(self).wf(),
            final(self)@.tensors == old(self)@.tensors,
            final(self)@.names == old(self)@.names,
            final(self)@.records == old(self)@.records,
            match r {
                Ok(_) => tensor_id < old(self)@.tensors.len() && final(self)@.grads
                    == old(self)@.grads.update(tensor_id as int, tensor@),
                Err(e) => tensor_id >= old(self)@.tensors.len() && e == GraphError::TensorNotFound(
                    tensor_id,
                ) && final(self)@.grads == old(self)@.grads,
            },
    {
        if tensor_id >= self.grads.len() {
            return Err(GraphError::TensorNotFound(tensor_id));
        }
        self.grads[tensor_id] = tensor.clone();
        proof {
            assert(final(self)@.grads =~= old(self)@.grads.update(tensor_id as int, tensor@));
            assert(final(self)@.tensors =~= old(self)@.tensors);
            assert(final(self)@.names =~= old(self)@.names);
            assert(final(self)@.records =~= old(self)@.records);
        }
        Ok(())
    }

    /// Resets every gradient to zeros of its own shape.
    pub fn zero_grad(&mut self)
        requires
            old(self).wf(),
        ensures
            final(self).wf(),
            final(self)@.tensors == old(self)@.tensors,
            final(self)@.names == old(self)@.names,
            final(self)@.records == old(self)@.records,
            final(self)@.grads.len() == old(self)@.grads.len(),
            forall|i: int|
                0 <= i < old(self)@.grads.len() ==> #[trigger] final(self)@.grads[i]
                    == old(self)@.grads[i].zeros_like(),
            old(self)@.shapes_agree() ==> final(self)@.shapes_agree(),
    {
        let n: usize = self.grads.len();
        let mut i: usize = 0;
        while i < n
            invariant
                i <= n,
                n == self.grads@.len(),
                self.tensors == old(self).tensors,
                self.names == old(self).names,
                self.computations == old(self).computations,
                self.grads@.len() == old(self).grads@.len(),
                forall|j: int|
                    0 <= j < i ==> #[trigger] self.grads@[j]@
                        == old(self).grads@[j]@.zeros_like(),
                forall|j: int| i <= j < n ==> #[trigger] self.grads@[j] == old(self).grads@[j],
            decreases n - i,
        {
            let z = self.grads[i].zeros_like();
            self.grads[i] = z;
            i += 1;
        }
        proof {
            assert(final(self)@.tensors =~= old(self)@.tensors);
            assert(final(self)@.names =~= old(self)@.names);
            assert(final(self)@.records =~= old(self)@.records);
            if old(self)@.shapes_agree() {
                assert forall|j: int| 0 <= j < final(self)@.tensors.len() implies (
                #[trigger] final(self)@.grads[j]).shape == final(self)@.tensors[j].shape by {
                    assert(final(self)@.grads[j] == old(self)@.grads[j].zeros_like());
                }
            }
        }
    }

    /// Fills the tensor `tensor_id` with rows of the tensor `embedding_id`:
    /// for each index of `input` the row with that number. Nothing is
    /// recorded, so no gradient flows back into the table of rows.
    pub fn embed(&mut self, tensor_id: TensorId, embedding_id: TensorId, input: &Tensor<usize>) -> (r:
        Result<(), GraphError>)
        requires
            old(self).wf(),
        ensures
            final(self).wf(),
            final(self)@.grads == old(self)@.grads,
            final(self)@.names == old(self)@.names,
            final(self)@.records == old(self)@.records,
            (final(self)@.tensors, r) == embed_spec(
                old(self)@.tensors,
                tensor_id,
                embedding_id,
                input@,
            ),
    {
        if embedding_id >= self.tensors.len() {
            return Err(GraphError::TensorNotFound(embedding_id));
        }
        match self.tensors[embedding_id].rows(input) {
            Ok(t) => {
                let r = self.load(tensor_id, &t);
                proof {
                    // The two results are equal once their unit values are.
                    if tensor_id < old(self)@.tensors.len() {
                        assert(r->Ok_0 == ());
                    }
                }
                r
            },
            Err(e) => Err(GraphError::TensorError(e)),
        }
    }

    /// Adds a gradient to the slot of `id`.
    pub fn add_grad(&mut self, id: TensorId, add: Tensor<V>) -> (r: Result<(), GraphError>)
        requires
            old(self).wf(),
        ensures
            final(self).wf(),
            final(self)@.tensors == old(self)@.tensors,
            final(self)@.names == old(self)@.names,
            final(self)@.records == old(self)@.records,
            (final(self)@.grads, r) == accumulate(old(self)@.tensors, old(self)@.grads, id, add@),
            old(self)@.shapes_agree() ==> final(self)@.shapes_agree(),
    {
        let r = accumulate_into(&self.tensors, &mut self.grads, id, &add);
        proof {
            if old(self)@.shapes_agree() {
                laws::lemma_accumulate_keeps_shapes(
                    old(self)@.tensors,
                    old(self)@.grads,
                    id,
                    add@,
                );
            }
            assert(final(self)@.tensors =~= old(self)@.tensors);
            assert(final(self)@.names =~= old(self)@.names);
            assert(final(self)@.records =~= old(self)@.records);
        }
        r
    }
}

fn find_missing(ids: &[TensorId], len: usize) -> (r: Option<TensorId>)
    ensures
        r == first_missing(ids@, len as nat),
{
    let n: usize = ids.len();
    let mut j: usize = 0;
    while j < n
        invariant
            j <= n,
            n == ids@.len(),
            first_missing(ids@.take(j as int), len as nat) is None,
        decreases n - j,
    {
        proof {
            assert(ids@.take(j + 1).drop_last() =~= ids@.take(j as int));
        }
        if ids[j] >= len {
            proof {
                lemma_found_stays(ids@, len as nat, j + 1);
            }
            return Some(ids[j]);
        }
        j += 1;
    }
    proof {
        assert(ids@.take(n as int) =~= ids@);
    }
    None
}

fn borrow_all<'a, V>(tensors: &'a Vec<Tensor<V>>, ids: &[TensorId]) -> (r: Vec<&'a Tensor<V>>)
    requires
        forall|j: int| 0 <= j < ids@.len() ==> ids@[j] < tensors@.len(),
    ensures
        crate::tensor::models(r@) == gather(crate::tensor::owned_models(tensors@), ids@),
{
    let n: usize = ids.len();
    let mut out: Vec<&'a Tensor<V>> = Vec::new();
    let mut j: usize = 0;
    while j < n
        invariant
            j <= n,
            n == ids@.len(),
            forall|q: int| 0 <= q < ids@.len() ==> ids@[q] < tensors@.len(),
            out@.len() == j,
            forall|q: int| 0 <= q < j ==> out@[q]@ == tensors@[ids@[q] as int]@,
        decreases n - j,
    {
        out.push(&tensors[ids[j]]);
        j += 1;
    }
    proof {
        assert(crate::tensor::models(out@) =~= gather(
            crate::tensor::owned_models(tensors@),
            ids@,
        ));
    }
    out
}

impl<V: Scalar, F: Function<V>> Graph<V, F> {
    /// Applies an operation to the tensors with the given ids, in
    /// inference mode, and records it: the result becomes a new unnamed
    /// tensor, and the record says how it came about.
    pub fn call(&mut self, f: F, tensor_ids: &[TensorId]) -> (r: Result<
        TensorId,
        GraphError,
    >)
        requires
            old(self).wf(),
        ensures
            final(self).wf(),
            match r {
                Ok(id) => {
                    &&& first_missing(tensor_ids@, old(self)@.tensors.len()) is None
                    &&& id == old(self)@.tensors.len()
                    &&& final(self)@.tensors == old(self)@.tensors.push(final(self)@.tensors[id as int])
                    &&& final(self)@.grads == old(self)@.grads.push(
                        final(self)@.tensors[id as int].zeros_like(),
                    )
                    &&& final(self)@.names == old(self)@.names.push(Seq::empty())
                    &&& final(self)@.records.len() == old(self)@.records.len() + 1
                    &&& final(self)@.records.drop_last() == old(self)@.records
                    &&& final(self)@.records.last().out == id
                    &&& final(self)@.records.last().inps@ == tensor_ids@
                    &&& final(self)@.records.last().func == f
                },
                Err(e) => final(self)@ == old(self)@,
            },
            first_missing(tensor_ids@, old(self)@.tensors.len()) matches Some(id) ==> r == Err::<
                TensorId,
                GraphError,
            >(GraphError::TensorNotFound(id)),
            first_missing(tensor_ids@, old(self)@.tensors.len()) is None && f.deterministic(false)
                ==> match f.run_spec(gather(old(self)@.tensors, tensor_ids@), false) {
                Ok(t) => r == Ok::<TensorId, GraphError>(old(self)@.tensors.len() as usize)
                    && final(self)@.tensors.last() == t,
                Err(e) => r == Err::<TensorId, GraphError>(GraphError::TensorError(e)),
            },
            old(self)@.shapes_agree() ==> final(self)@.shapes_agree(),
    {
        if let Some(id) = find_missing(tensor_ids, self.tensors.len()) {
            return Err(GraphError::TensorNotFound(id));
        }
        proof {
            lemma_none_missing(tensor_ids@, self.tensors@.len());
        }
        let inputs = borrow_all(&self.tensors, tensor_ids);
        let result = f.run(inputs.as_slice(), false);
        match result {
            Err(e) => Err(GraphError::TensorError(e)),
            Ok(out) => {
                let ghost value = out@;
                let child: usize = self.tensors.len();
                self.grads.push(out.zeros_like());
                self.tensors.push(out);
                self.names.push(String::new());
                self.computations.push(
                    Computation { func: f, inps: crate::shape::copy_of(tensor_ids), out: child },
                );
                proof {
                    assert(self@.tensors =~= old(self)@.tensors.push(value));
                    assert(self@.grads =~= old(self)@.grads.push(value.zeros_like()));
                    assert(self@.names =~= old(self)@.names.push(Seq::empty()));
                    assert(self@.records.drop_last() =~= old(self)@.records);
                    assert(self@.records.last().inps@ == tensor_ids@);
                    assert forall|k: int, j: int|
                        0 <= k < self@.records.len() && 0 <= j
                            < self@.records[k].inps@.len() implies #[trigger] self@.records[k].inps@[j]
                        < self@.records[k].out by {
                        if k < old(self)@.records.len() {
                            assert(self@.records[k] == old(self)@.records[k]);
                        }
                    }
                    assert forall|a: int, b: int|
                        0 <= a < b < self@.records.len() implies (
                    #[trigger] self@.records[a]).out < (#[trigger] self@.records[b]).out by {
                        assert(self@.records[a] == old(self)@.records[a]);
                        if b < old(self)@.records.len() {
                            assert(self@.records[b] == old(self)@.records[b]);
                        }
                    }
                    assert forall|k: int| 0 <= k < self@.records.len() implies (
                    #[trigger] self@.records[k]).out < self@.tensors.len() by {
                        if k < old(self)@.records.len() {
                            assert(self@.records[k] == old(self)@.records[k]);
                        }
                    }
                }
                Ok(child)
            },
        }
    }

    /// Replays every record in the order of creation: each output is
    /// computed again from the present values of its inputs. The first
    /// failure ends the pass.
    pub fn forward(&mut self, training: bool) -> (r: Result<(), GraphError>)
        requires
            old(self).wf(),
        ensures
            final(self).wf(),
            final(self)@.grads == old(self)@.grads,
            final(self)@.names == old(self)@.names,
            final(self)@.records == old(self)@.records,
            final(self)@.tensors.len() == old(self)@.tensors.len(),
            forall|id: TensorId|
                id < old(self)@.tensors.len() && old(self)@.is_leaf(id)
                    ==> #[trigger] final(self)@.tensors[id as int] == old(self)@.tensors[id as int],
            old(self)@.deterministic(training) ==> (final(self)@.tensors, r) == forward_from(
                old(self)@.tensors,
                old(self)@.records,
                training,
                0,
            ),
    {
        let n: usize = self.computations.len();
        let mut i: usize = 0;
        while i < n
            invariant
                i <= n,
                n == self.computations@.len(),
                self.wf(),
                self.grads == old(self).grads,
                self.names == old(self).names,
                self.computations == old(self).computations,
                self.tensors@.len() == old(self).tensors@.len(),
                forall|id: TensorId|
                    id < old(self)@.tensors.len() && old(self)@.is_leaf(id)
                        ==> #[trigger] self@.tensors[id as int] == old(self)@.tensors[id as int],
                old(self)@.deterministic(training) ==> forward_from(
                    old(self)@.tensors,
                    old(self)@.records,
                    training,
                    0,
                ) == forward_from(self@.tensors, old(self)@.records, training, i as nat),
            decreases n - i,
        {
            let ghost before = self@.tensors;
            proof {
                assert(self@.records =~= old(self)@.records);
                let rec = self@.records[i as int];
                assert(rec.out < self@.tensors.len());
                assert forall|j: int| 0 <= j < rec.inps@.len() implies rec.inps@[j]
                    < self.tensors@.len() by {
                    assert(self@.records[i as int].inps@[j] < self@.records[i as int].out);
                }
            }
            let ghost rec = self@.records[i as int];
            let c = &self.computations[i];
            let inputs = borrow_all(&self.tensors, c.inps.as_slice());
            let result = c.func.run(inputs.as_slice(), training);
            proof {
                assert(crate::tensor::models(inputs@) == gather(before, rec.inps@));
                if old(self)@.deterministic(training) {
                    assert(old(self)@.records[i as int].func.deterministic(training));
                }
            }
            match result {
                Ok(t) => {
                    let out: usize = self.computations[i].out;
                    self.tensors[out] = t;
                    proof {
                        assert(self@.tensors =~= before.update(out as int, t@));
                        assert(self@.records =~= old(self)@.records);
                        assert(self@.grads =~= old(self)@.grads);
                        assert(self@.names =~= old(self)@.names);
                        assert(!old(self)@.is_leaf(out)) by {
                            assert(old(self)@.records[i as int].out == out);
                        }
                    }
                },
                Err(e) => {
                    proof {
                        assert(self@.grads =~= old(self)@.grads);
                        assert(self@.names =~= old(self)@.names);
                    }
                    return Err(GraphError::TensorError(e));
                },
            }
            i += 1;
        }
        proof {
            assert(final(self)@.grads =~= old(self)@.grads);
            assert(final(self)@.names =~= old(self)@.names);
            assert(final(self)@.records =~= old(self)@.records);
        }
        Ok(())
    }
}

impl<V: Scalar, F: Function<V>> Graph<V, F> {
    /// Adds to the gradients of the inputs of record `k` what its
    /// operation makes of the gradient of its output.
    #[verifier::loop_isolation(false)]
    fn propagate(&mut self, k: usize) -> (r: Result<(), GraphError>)
        requires
            old(self).wf(),
            k < old(self)@.records.len(),
        ensures
            final(self).wf(),
            final(self)@.tensors == old(self)@.tensors,
            final(self)@.names == old(self)@.names,
            final(self)@.records == old(self)@.records,
            final(self)@.grads.len() == old(self)@.grads.len(),
            match old(self)@.records[k as int].func.grad_spec(
                gather(old(self)@.tensors, old(self)@.records[k as int].inps@),
                old(self)@.grads[old(self)@.records[k as int].out as int],
            ) {
                Err(e) => final(self)@.grads == old(self)@.grads && r == Err::<(), GraphError>(
                    GraphError::TensorError(e),
                ),
                Ok(gs) => (final(self)@.grads, r) == accumulate_all(
                    old(self)@.tensors,
                    old(self)@.grads,
                    old(self)@.records[k as int].inps@,
                    gs,
                    0,
                ),
            },
    {
        let ghost rec = self@.records[k as int];
        proof {
            assert(rec.out < self@.tensors.len());
            assert forall|j: int| 0 <= j < rec.inps@.len() implies rec.inps@[j]
                < self.tensors@.len() by {
                assert(self@.records[k as int].inps@[j] < self@.records[k as int].out);
            }
        }
        let c = &self.computations[k];
        let inputs = borrow_all(&self.tensors, c.inps.as_slice());
        let produced = c.func.grad(inputs.as_slice(), &self.grads[c.out]);
        let gs = match produced {
            Ok(gs) => gs,
            Err(e) => {
                proof {
                    assert(self@.grads =~= old(self)@.grads);
                }
                return Err(GraphError::TensorError(e));
            },
        };
        let ghost adds = crate::tensor::owned_models(gs@);
        let m: usize = if c.inps.len() < gs.len() {
            c.inps.len()
        } else {
            gs.len()
        };
        let mut j: usize = 0;
        while j < m
            invariant
                j <= m,
                m <= rec.inps@.len(),
                m <= gs@.len(),
                m == rec.inps@.len() || m == gs@.len(),
                rec == old(self)@.records[k as int],
                *c == rec,
                adds == crate::tensor::owned_models(gs@),
                self.tensors == old(self).tensors,
                self.names == old(self).names,
                self.computations == old(self).computations,
                self.grads@.len() == old(self).grads@.len(),
                old(self).wf(),
                accumulate_all(old(self)@.tensors, old(self)@.grads, rec.inps@, adds, 0)
                    == accumulate_all(old(self)@.tensors, self@.grads, rec.inps@, adds, j as nat),
            decreases m - j,
        {
            let ghost before = self@.grads;
            let step = accumulate_into(&self.tensors, &mut self.grads, c.inps[j], &gs[j]);
            proof {
                assert(adds[j as int] == gs@[j as int]@);
                assert(self@.tensors =~= old(self)@.tensors);
            }
            proof {
                assert(accumulate_all(old(self)@.tensors, before, rec.inps@, adds, j as nat) == {
                    let first = accumulate(
                        old(self)@.tensors,
                        before,
                        rec.inps@[j as int],
                        adds[j as int],
                    );
                    match first.1 {
                        Ok(_) => accumulate_all(
                            old(self)@.tensors,
                            first.0,
                            rec.inps@,
                            adds,
                            (j + 1) as nat,
                        ),
                        Err(e) => (first.0, Err(e)),
                    }
                });
            }
            match step {
                Ok(_) => {},
                Err(e) => {
                    return Err(e);
                },
            }
            j += 1;
        }
        Ok(())
    }

    /// Propagates the gradient of a loss from the tensor `id` back to the
    /// tensors it was computed from. The loss's gradient, divided by the
    /// number of elements of the loss tensor, is added to the gradient of
    /// `id`. Then the records are visited from the newest backwards, at
    /// most `limit` of them where a limit is given. Returns the mean of
    /// the loss tensor.
    #[verifier::loop_isolation(false)]
    pub fn backward_all(&mut self, id: TensorId, loss_fn: Box<dyn Loss<V>>, limit: Option<usize>) -> (r:
        Result<V, GraphError>)
        requires
            old(self).wf(),
        ensures
            final(self).wf(),
            final(self)@.tensors == old(self)@.tensors,
            final(self)@.names == old(self)@.names,
            final(self)@.records == old(self)@.records,
            (final(self)@.grads, r) == backward_spec(
                old(self)@,
                id,
                loss_fn.run_spec(old(self)@.tensors[id as int]),
                limit,
            ),
            old(self)@.shapes_agree() ==> final(self)@.shapes_agree(),
    {
        proof {
            if old(self)@.shapes_agree() {
                laws::lemma_backward_keeps_shapes(
                    old(self)@,
                    id,
                    loss_fn.run_spec(old(self)@.tensors[id as int]),
                    limit,
                );
            }
        }
        if id >= self.tensors.len() {
            return Err(GraphError::TensorNotFound(id));
        }
        let (loss, grad) = match loss_fn.run(&self.tensors[id]) {
            Ok(pair) => pair,
            Err(e) => {
                return Err(GraphError::TensorError(e));
            },
        };
        let mean_coeff: V = V::one().over_count(loss.size());
        let seed = match grad.times(&Tensor::scalar(mean_coeff)) {
            Ok(seed) => seed,
            Err(e) => {
                return Err(GraphError::TensorError(e));
            },
        };
        match self.add_grad(id, seed) {
            Ok(_) => {},
            Err(e) => {
                return Err(e);
            },
        }
        let ghost seeded = self@.grads;
        let n: usize = self.computations.len();
        let stop: usize = match limit {
            Some(k) => if k < n {
                k
            } else {
                n
            },
            None => n,
        };
        let ghost cap = budget(limit, n as nat);
        let mut visited: usize = 0;
        while visited < stop
            invariant
                visited <= stop <= n,
                n == old(self)@.records.len(),
                stop == if cap < n {
                    cap
                } else {
                    n as nat
                },
                self.wf(),
                self@.tensors == old(self)@.tensors,
                self@.names == old(self)@.names,
                self@.records == old(self)@.records,
                backward_from(old(self)@.tensors, seeded, old(self)@.records, 0, cap)
                    == backward_from(
                    old(self)@.tensors,
                    self@.grads,
                    old(self)@.records,
                    visited as nat,
                    cap,
                ),
            decreases stop - visited,
        {
            let ghost before = self@.grads;
            let step = self.propagate(n - 1 - visited);
            proof {
                let rec = old(self)@.records[n - 1 - visited];
                assert(backward_from(
                    old(self)@.tensors,
                    before,
                    old(self)@.records,
                    visited as nat,
                    cap,
                ) == match rec.func.grad_spec(
                    gather(old(self)@.tensors, rec.inps@),
                    before[rec.out as int],
                ) {
                    Err(e) => (before, Err(GraphError::TensorError(e))),
                    Ok(gs) => {
                        let all = accumulate_all(old(self)@.tensors, before, rec.inps@, gs, 0);
                        match all.1 {
                            Ok(_) => backward_from(
                                old(self)@.tensors,
                                all.0,
                                old(self)@.records,
                                (visited + 1) as nat,
                                cap,
                            ),
                            Err(e) => (all.0, Err(e)),
                        }
                    },
                });
            }
            match step {
                Ok(_) => {},
                Err(e) => {
                    return Err(e);
                },
            }
            visited += 1;
        }
        Ok(loss.mean())
    }
}

impl<V: Scalar, F: Function<V>> Graph<V, F> {
    /// The ids of the tensors that the set names, in ascending order.
    pub fn select(&self, params: &HashSet<TensorId>) -> (ids: Vec<TensorId>)
        ensures
            ids@ == selected(self@.tensors.len(), params@),
    {
        broadcast use vstd::std_specs::hash::group_hash_axioms;

        let n: usize = self.tensors.len();
        let mut ids: Vec<TensorId> = Vec::new();
        let mut id: usize = 0;
        while id < n
            invariant
                id <= n,
                ids@ == selected(id as nat, params@),
            decreases n - id,
        {
            if params.contains(&id) {
                ids.push(id);
            }
            id += 1;
        }
        ids
    }

    /// Hands the tensors that the set names, in ascending order of their
    /// ids, and their gradients to the optimizer, which changes the
    /// tensors in place.
    #[verifier::loop_isolation(false)]
    pub fn optimize<O: Optimizer<V>>(
        &mut self,
        opt: &mut O,
        params: &HashSet<TensorId>,
        learning_rate: V,
    ) -> (r: Result<(), GraphError>)
        requires
            old(self).wf(),
        ensures
            final(self).wf(),
            final(self)@.grads == old(self)@.grads,
            final(self)@.names == old(self)@.names,
            final(self)@.records == old(self)@.records,
            ({
                let ids = selected(old(self)@.tensors.len(), params@);
                let done = old(opt).step_spec(
                    gather(old(self)@.tensors, ids),
                    gather(old(self)@.grads, ids),
                    learning_rate,
                );
                &&& final(self)@.tensors == store(old(self)@.tensors, ids, done.0, 0)
                &&& r == match done.1 {
                    Ok(_) => Ok::<(), GraphError>(()),
                    Err(e) => Err::<(), GraphError>(GraphError::TensorError(e)),
                }
            }),
    {
        let ids = self.select(params);
        let len: usize = self.tensors.len();
        proof {
            lemma_selected(len as nat, params@);
        }
        let count: usize = ids.len();
        let mut chosen: Vec<Tensor<V>> = Vec::new();
        let mut k: usize = 0;
        while k < count
            invariant
                k <= count,
                chosen@.len() == k,
                forall|q: int| 0 <= q < k ==> chosen@[q]@ == self.tensors@[ids@[q] as int]@,
            decreases count - k,
        {
            chosen.push(self.tensors[ids[k]].clone());
            k += 1;
        }
        proof {
            assert(crate::tensor::owned_models(chosen@) =~= gather(old(self)@.tensors, ids@));
        }
        let grads = borrow_all(&self.grads, ids.as_slice());
        assert(crate::tensor::models(grads@).len() == ids@.len());
        let outcome = opt.step(chosen.as_mut_slice(), grads.as_slice(), learning_rate);
        let ghost values = crate::tensor::owned_models(chosen@);
        let m: usize = if chosen.len() < count {
            chosen.len()
        } else {
            count
        };
        let mut k: usize = 0;
        while k < m
            invariant
                k <= m,
                self.grads == old(self).grads,
                self.names == old(self).names,
                self.computations == old(self).computations,
                self.tensors@.len() == old(self).tensors@.len(),
                store(old(self)@.tensors, ids@, values, 0) == store(
                    self@.tensors,
                    ids@,
                    values,
                    k as nat,
                ),
            decreases m - k,
        {
            let ghost before = self@.tensors;
            self.tensors[ids[k]] = chosen[k].clone();
            proof {
                assert(self@.tensors =~= before.update(ids@[k as int] as int, values[k as int]));
            }
            k += 1;
        }
        proof {
            assert(self@.grads =~= old(self)@.grads);
            assert(self@.names =~= old(self)@.names);
            assert(self@.records =~= old(self)@.records);
        }
        match outcome {
            Ok(_) => Ok(()),
            Err(e) => Err(GraphError::TensorError(e)),
        }
    }
}

impl<F: Clone> Clone for Computation<F> {
    fn clone(&self) -> (r: Self)
        ensures
            r.out == self.out,
            r.inps@ == self.inps@,
            cloned(self.func, r.func),
    {
        Computation {
            out: self.out,
            inps: crate::shape::copy_of(self.inps.as_slice()),
            func: self.func.clone(),
        }
    }
}

fn clone_all<V: Copy>(tensors: &Vec<Tensor<V>>) -> (r: Vec<Tensor<V>>)
    ensures
        crate::tensor::owned_models(r@) == crate::tensor::owned_models(tensors@),
{
    let n: usize = tensors.len();
    let mut out: Vec<Tensor<V>> = Vec::new();
    let mut i: usize = 0;
    while i < n
        invariant
            i <= n,
            n == tensors@.len(),
            out@.len() == i,
            forall|q: int| 0 <= q < i ==> out@[q]@ == tensors@[q]@,
        decreases n - i,
    {
        out.push(tensors[i].clone());
        i += 1;
    }
    proof {
        assert(crate::tensor::owned_models(out@) =~= crate::tensor::owned_models(tensors@));
    }
    out
}

/// A copy of the whole graph that shares nothing with it: the tensors,
/// the gradients and the names are equal to those of the graph copied,
/// and every record has the same ids and a clone of the operation.
impl<V: Scalar, F: Function<V> + Clone> Clone for Graph<V, F> {
    fn clone(&self) -> (r: Self)
        ensures
            r@.tensors == self@.tensors,
            r@.grads == self@.grads,
            r@.names == self@.names,
            r@.records.len() == self@.records.len(),
            forall|k: int|
                0 <= k < self@.records.len() ==> (#[trigger] r@.records[k]).out
                    == self@.records[k].out && r@.records[k].inps@ == self@.records[k].inps@
                    && cloned(self@.records[k].func, r@.records[k].func),
            self.wf() ==> r.wf(),
    {
        let n: usize = self.names.len();
        let mut names: Vec<String> = Vec::new();
        let mut i: usize = 0;
        while i < n
            invariant
                i <= n,
                n == self.names@.len(),
                names@.len() == i,
                forall|q: int| 0 <= q < i ==> names@[q] == self.names@[q],
            decreases n - i,
        {
            names.push(self.names[i].clone());
            i += 1;
        }
        let m: usize = self.computations.len();
        let mut computations: Vec<Computation<F>> = Vec::new();
        let mut k: usize = 0;
        while k < m
            invariant
                k <= m,
                m == self.computations@.len(),
                computations@.len() == k,
                forall|q: int|
                    0 <= q < k ==> (#[trigger] computations@[q]).out == self.computations@[q].out
                        && computations@[q].inps@ == self.computations@[q].inps@ && cloned(
                        self.computations@[q].func,
                        computations@[q].func,
                    ),
            decreases m - k,
        {
            computations.push(self.computations[k].clone());
            k += 1;
        }
        let r = Graph {
            tensors: clone_all(&self.tensors),
            grads: clone_all(&self.grads),
            names,
            computations,
        };
        proof {
            assert(r@.names =~= self@.names);
            if self.wf() {
                assert forall|a: int, b: int| 0 <= a < b < r@.records.len() implies (
                #[trigger] r@.records[a]).out < (#[trigger] r@.records[b]).out by {
                    assert(self@.records[a].out < self@.records[b].out);
                }
                assert forall|k: int, j: int|
                    0 <= k < r@.records.len() && 0 <= j
                        < r@.records[k].inps@.len() implies #[trigger] r@.records[k].inps@[j]
                    < r@.records[k].out by {
                    assert(self@.records[k].inps@[j] < self@.records[k].out);
                }
                assert forall|k: int| 0 <= k < r@.records.len() implies (
                #[trigger] r@.records[k]).out < r@.tensors.len() by {
                    assert(self@.records[k].out < self@.tensors.len());
                }
            }
        }
        r
    }
}

} // verus!
