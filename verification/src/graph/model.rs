//! The model of a graph: what it holds, and what its passes compute.

use super::{Computation, GraphError, TensorId};
use crate::funcs::Function;
use crate::scalar::Scalar;
use crate::tensor::{TensorError, TensorModel};
use vstd::prelude::*;

verus! {

/// The mathematical content of a graph.
pub struct GraphModel<V, F> {
    pub tensors: Seq<TensorModel<V>>,
    pub grads: Seq<TensorModel<V>>,
    pub names: Seq<Seq<char>>,
    pub records: Seq<Computation<F>>,
}

impl<V: Scalar, F: Function<V>> GraphModel<V, F> {
    /// The arenas have one length, every record's inputs were allocated
    /// before its output, and the records stand in the order of their
    /// outputs, which is the order of their creation.
    pub open spec fn wf(self) -> bool {
        &&& self.grads.len() == self.tensors.len()
        &&& self.names.len() == self.tensors.len()
        &&& forall|k: int|
            0 <= k < self.records.len() ==> (#[trigger] self.records[k]).out < self.tensors.len()
        &&& forall|k: int, j: int|
            0 <= k < self.records.len() && 0 <= j < self.records[k].inps@.len()
                ==> #[trigger] self.records[k].inps@[j] < self.records[k].out
        &&& forall|a: int, b: int|
            0 <= a < b < self.records.len() ==> (#[trigger] self.records[a]).out < (
            #[trigger] self.records[b]).out
    }

    /// An id with no computation record.
    pub open spec fn is_leaf(self, id: TensorId) -> bool {
        forall|k: int| 0 <= k < self.records.len() ==> (#[trigger] self.records[k]).out != id
    }

    /// Every gradient has the shape of its tensor.
    pub open spec fn shapes_agree(self) -> bool {
        forall|i: int|
            0 <= i < self.tensors.len() ==> (#[trigger] self.grads[i]).shape
                == self.tensors[i].shape
    }

    /// Every recorded operation is a function of its inputs in this mode.
    pub open spec fn deterministic(self, training: bool) -> bool {
        forall|k: int|
            0 <= k < self.records.len() ==> (#[trigger] self.records[k]).func.deterministic(
                training,
            )
    }
}

/// The tensors with the given ids, in their order.
pub open spec fn gather<V>(tensors: Seq<TensorModel<V>>, ids: Seq<TensorId>) -> Seq<
    TensorModel<V>,
> {
    Seq::new(ids.len(), |j: int| tensors[ids[j] as int])
}

/// The first of the ids that no tensor has, if there is one.
pub open spec fn first_missing(ids: Seq<TensorId>, len: nat) -> Option<TensorId>
    decreases ids.len(),
{
    if ids.len() == 0 {
        None
    } else {
        match first_missing(ids.drop_last(), len) {
            Some(id) => Some(id),
            None => if ids.last() >= len {
                Some(ids.last())
            } else {
                None
            },
        }
    }
}

/// None is missing where every id is below the number of tensors.
pub proof fn lemma_none_missing(ids: Seq<TensorId>, len: nat)
    ensures
        first_missing(ids, len) is None <==> forall|j: int|
            0 <= j < ids.len() ==> ids[j] < len,
    decreases ids.len(),
{
    if ids.len() > 0 {
        lemma_none_missing(ids.drop_last(), len);
        if first_missing(ids, len) is None {
            assert forall|j: int| 0 <= j < ids.len() implies ids[j] < len by {
                if j < ids.len() - 1 {
                    assert(ids.drop_last()[j] == ids[j]);
                }
            }
        } else {
            if forall|j: int| 0 <= j < ids.len() ==> ids[j] < len {
                assert forall|j: int| 0 <= j < ids.drop_last().len() implies ids.drop_last()[j]
                    < len by {
                    assert(ids.drop_last()[j] == ids[j]);
                }
                assert(ids.last() == ids[ids.len() - 1]);
            }
        }
    }
}

/// What is missing among the first ids is what is missing among all.
pub proof fn lemma_found_stays(ids: Seq<TensorId>, len: nat, j: int)
    requires
        0 <= j <= ids.len(),
        first_missing(ids.take(j), len) is Some,
    ensures
        first_missing(ids, len) == first_missing(ids.take(j), len),
    decreases ids.len() - j,
{
    if j < ids.len() {
        assert(ids.take(j + 1).drop_last() =~= ids.take(j));
        lemma_found_stays(ids, len, j + 1);
    } else {
        assert(ids.take(j) =~= ids);
    }
}

/// The tensors after the records from `i` on have been replayed in their
/// order, and whether that succeeded. A record that fails ends the pass:
/// the tensors refreshed before it keep their new values.
pub open spec fn forward_from<V: Scalar, F: Function<V>>(
    tensors: Seq<TensorModel<V>>,
    records: Seq<Computation<F>>,
    training: bool,
    i: nat,
) -> (Seq<TensorModel<V>>, Result<(), GraphError>)
    decreases records.len() - i,
{
    if i >= records.len() {
        (tensors, Ok(()))
    } else {
        let rec = records[i as int];
        match rec.func.run_spec(gather(tensors, rec.inps@), training) {
            Ok(t) => forward_from(tensors.update(rec.out as int, t), records, training, i + 1),
            Err(e) => (tensors, Err(GraphError::TensorError(e))),
        }
    }
}

/// Elements that stand for random words, one word for each element.
pub open spec fn drawn<V: Scalar>(blob: Seq<V>) -> bool {
    exists|words: Seq<u32>|
        words.len() == blob.len() && forall|i: int|
            0 <= i < blob.len() ==> blob[i] == V::from_word_spec(#[trigger] words[i])
}

/// A gradient slot after a gradient has been added to it. A gradient of
/// higher rank than the tensor it is for was broadcast on the way forward:
/// it is summed over its leading dimensions first. The sum is added, not
/// stored: the slot keeps what it had received before.
pub open spec fn add_grad_spec<V: Scalar>(
    rank: nat,
    slot: TensorModel<V>,
    add: TensorModel<V>,
) -> Result<TensorModel<V>, TensorError> {
    if add.shape.len() >= rank + 1 {
        match add.sum_leading(rank) {
            Ok(sum) => slot.plus(sum),
            Err(e) => Err(e),
        }
    } else {
        slot.plus(add)
    }
}

/// The gradients after one gradient has been added for `id`, and whether
/// that succeeded. A failure leaves them as they were.
pub open spec fn accumulate<V: Scalar>(
    tensors: Seq<TensorModel<V>>,
    grads: Seq<TensorModel<V>>,
    id: TensorId,
    add: TensorModel<V>,
) -> (Seq<TensorModel<V>>, Result<(), GraphError>) {
    if id >= tensors.len() {
        (grads, Err(GraphError::TensorNotFound(id)))
    } else {
        match add_grad_spec(tensors[id as int].shape.len(), grads[id as int], add) {
            Ok(g) => (grads.update(id as int, g), Ok(())),
            Err(e) => (grads, Err(GraphError::TensorError(e))),
        }
    }
}

/// The gradients after the gradients `adds` have been added for `ids`,
/// pair by pair from the `j`-th on, and whether that succeeded. The first
/// failure ends it; what was added before stays.
pub open spec fn accumulate_all<V: Scalar>(
    tensors: Seq<TensorModel<V>>,
    grads: Seq<TensorModel<V>>,
    ids: Seq<TensorId>,
    adds: Seq<TensorModel<V>>,
    j: nat,
) -> (Seq<TensorModel<V>>, Result<(), GraphError>)
    decreases ids.len() - j,
{
    if j >= ids.len() || j >= adds.len() {
        (grads, Ok(()))
    } else {
        let step = accumulate(tensors, grads, ids[j as int], adds[j as int]);
        match step.1 {
            Ok(_) => accumulate_all(tensors, step.0, ids, adds, j + 1),
            Err(e) => (step.0, Err(e)),
        }
    }
}

/// The tensors after rows have been looked up, and whether that succeeded.
pub open spec fn embed_spec<V>(
    tensors: Seq<TensorModel<V>>,
    tensor_id: TensorId,
    embedding_id: TensorId,
    input: TensorModel<usize>,
) -> (Seq<TensorModel<V>>, Result<(), GraphError>) {
    if embedding_id >= tensors.len() {
        (tensors, Err(GraphError::TensorNotFound(embedding_id)))
    } else {
        match tensors[embedding_id as int].rows(input) {
            Err(e) => (tensors, Err(GraphError::TensorError(e))),
            Ok(t) => if tensor_id >= tensors.len() {
                (tensors, Err(GraphError::TensorNotFound(tensor_id)))
            } else {
                (tensors.update(tensor_id as int, t), Ok(()))
            },
        }
    }
}

/// The gradient that a backward pass starts from: the gradient of the
/// loss, divided by the number of elements of the loss tensor.
pub open spec fn seed_spec<V: Scalar>(loss: TensorModel<V>, grad: TensorModel<V>) -> Result<
    TensorModel<V>,
    TensorError,
> {
    grad.times(
        TensorModel {
            shape: Seq::empty(),
            blob: seq![V::one_spec().over_count_spec(loss.blob.len())],
        },
    )
}

/// How many records a backward pass may visit.
pub open spec fn budget(limit: Option<usize>, records: nat) -> nat {
    match limit {
        Some(k) => k as nat,
        None => records,
    }
}

/// The gradients after the records have been visited from the newest
/// backwards, `visited` of them being done already, until `stop` of them
/// are done or none is left. Each record's operation turns the gradient of
/// its output into gradients of its inputs, which are added to theirs.
pub open spec fn backward_from<V: Scalar, F: Function<V>>(
    tensors: Seq<TensorModel<V>>,
    grads: Seq<TensorModel<V>>,
    records: Seq<Computation<F>>,
    visited: nat,
    stop: nat,
) -> (Seq<TensorModel<V>>, Result<(), GraphError>)
    decreases records.len() - visited,
{
    if visited >= stop || visited >= records.len() {
        (grads, Ok(()))
    } else {
        let rec = records[records.len() - 1 - visited];
        match rec.func.grad_spec(gather(tensors, rec.inps@), grads[rec.out as int]) {
            Err(e) => (grads, Err(GraphError::TensorError(e))),
            Ok(gs) => {
                let step = accumulate_all(tensors, grads, rec.inps@, gs, 0);
                match step.1 {
                    Ok(_) => backward_from(tensors, step.0, records, visited + 1, stop),
                    Err(e) => (step.0, Err(e)),
                }
            },
        }
    }
}

/// The gradients after a backward pass from `id`, and the mean loss if the
/// pass succeeded. `loss` is what the loss made of the tensor `id`.
pub open spec fn backward_spec<V: Scalar, F: Function<V>>(
    g: GraphModel<V, F>,
    id: TensorId,
    loss: Result<(TensorModel<V>, TensorModel<V>), TensorError>,
    limit: Option<usize>,
) -> (Seq<TensorModel<V>>, Result<V, GraphError>) {
    if id >= g.tensors.len() {
        (g.grads, Err(GraphError::TensorNotFound(id)))
    } else {
        match loss {
            Err(e) => (g.grads, Err(GraphError::TensorError(e))),
            Ok(pair) => match seed_spec(pair.0, pair.1) {
                Err(e) => (g.grads, Err(GraphError::TensorError(e))),
                Ok(seed) => {
                    let seeded = accumulate(g.tensors, g.grads, id, seed);
                    match seeded.1 {
                        Err(e) => (seeded.0, Err(e)),
                        Ok(_) => {
                            let done = backward_from(
                                g.tensors,
                                seeded.0,
                                g.records,
                                0,
                                budget(limit, g.records.len()),
                            );
                            match done.1 {
                                Err(e) => (done.0, Err(e)),
                                Ok(_) => (done.0, Ok(pair.0.mean())),
                            }
                        },
                    }
                },
            },
        }
    }
}

/// The ids below `len` that the set holds, in ascending order.
pub open spec fn selected(len: nat, set: Set<TensorId>) -> Seq<TensorId>
    decreases len,
{
    if len == 0 {
        Seq::empty()
    } else if set.contains((len - 1) as usize) {
        selected((len - 1) as nat, set).push((len - 1) as usize)
    } else {
        selected((len - 1) as nat, set)
    }
}

/// The selected ids are the ids below `len` that the set holds, each once
/// and in ascending order.
pub proof fn lemma_selected(len: nat, set: Set<TensorId>)
    requires
        len <= usize::MAX,
    ensures
        forall|k: int| 0 <= k < selected(len, set).len() ==> #[trigger] selected(len, set)[k] < len,
        forall|k: int|
            0 <= k < selected(len, set).len() ==> set.contains(#[trigger] selected(len, set)[k]),
        forall|a: int, b: int|
            0 <= a < b < selected(len, set).len() ==> #[trigger] selected(len, set)[a]
                < #[trigger] selected(len, set)[b],
        forall|id: TensorId|
            id < len && set.contains(id) ==> #[trigger] selected(len, set).contains(id),
    decreases len,
{
    if len > 0 {
        let rest = selected((len - 1) as nat, set);
        lemma_selected((len - 1) as nat, set);
        let last = (len - 1) as usize;
        if set.contains(last) {
            let all = rest.push(last);
            assert forall|id: TensorId| id < len && set.contains(id) implies all.contains(id) by {
                if id == last {
                    assert(all[all.len() - 1] == id);
                } else {
                    assert(rest.contains(id));
                    let k = choose|k: int| 0 <= k < rest.len() && rest[k] == id;
                    assert(all[k] == id);
                }
            }
        }
    }
}

/// The tensors after `values` have been stored at `ids`, pair by pair from
/// the `k`-th on.
pub open spec fn store<V>(
    tensors: Seq<TensorModel<V>>,
    ids: Seq<TensorId>,
    values: Seq<TensorModel<V>>,
    k: nat,
) -> Seq<TensorModel<V>>
    decreases ids.len() - k,
{
    if k >= ids.len() || k >= values.len() {
        tensors
    } else {
        store(tensors.update(ids[k as int] as int, values[k as int]), ids, values, k + 1)
    }
}

} // verus!
