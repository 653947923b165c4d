//! What holds of the graph's passes, stated over their models.

use super::model::{
    accumulate, accumulate_all, backward_from, backward_spec, budget, forward_from, gather,
    seed_spec, GraphModel,
};
use super::{Computation, GraphError, TensorId};
use crate::funcs::Function;
use crate::scalar::Scalar;
use crate::tensor::{TensorError, TensorModel};
use vstd::prelude::*;

verus! {

/// A forward pass changes no tensor but the outputs of the records it
/// replays, and it keeps the number of tensors.
pub proof fn lemma_forward_frame<V: Scalar, F: Function<V>>(
    tensors: Seq<TensorModel<V>>,
    records: Seq<Computation<F>>,
    training: bool,
    i: nat,
    id: TensorId,
)
    requires
        forall|k: int| 0 <= k < records.len() ==> (#[trigger] records[k]).out < tensors.len(),
        forall|k: int| i <= k < records.len() ==> (#[trigger] records[k]).out != id,
    ensures
        forward_from(tensors, records, training, i).0.len() == tensors.len(),
        id < tensors.len() ==> forward_from(tensors, records, training, i).0[id as int]
            == tensors[id as int],
    decreases records.len() - i,
{
    if i < records.len() {
        let rec = records[i as int];
        match rec.func.run_spec(gather(tensors, rec.inps@), training) {
            Ok(t) => {
                lemma_forward_frame(
                    tensors.update(rec.out as int, t),
                    records,
                    training,
                    i + 1,
                    id,
                );
            },
            Err(_) => {},
        }
    }
}

/// Replaying the records from the `i`-th on a second time changes nothing
/// and ends as the first time.
pub proof fn lemma_forward_replay<V: Scalar, F: Function<V>>(
    g: GraphModel<V, F>,
    tensors: Seq<TensorModel<V>>,
    training: bool,
    i: nat,
)
    requires
        g.wf(),
        tensors.len() == g.tensors.len(),
    ensures
        forward_from(
            forward_from(tensors, g.records, training, i).0,
            g.records,
            training,
            i,
        ) == forward_from(tensors, g.records, training, i),
    decreases g.records.len() - i,
{
    let records = g.records;
    if i < records.len() {
        let rec = records[i as int];
        let inputs = gather(tensors, rec.inps@);
        match rec.func.run_spec(inputs, training) {
            Err(_) => {},
            Ok(t) => {
                let next = tensors.update(rec.out as int, t);
                let end = forward_from(next, records, training, i + 1);
                lemma_forward_replay(g, next, training, i + 1);
                assert forall|k: int| i + 1 <= k < records.len() implies (
                #[trigger] records[k]).out != rec.out by {
                    assert(records[i as int].out < records[k].out);
                }
                lemma_forward_frame(next, records, training, i + 1, rec.out);
                assert(end.0[rec.out as int] == t);
                assert(gather(end.0, rec.inps@) =~= inputs) by {
                    assert forall|j: int| 0 <= j < rec.inps@.len() implies end.0[rec.inps@[j] as int]
                        == tensors[rec.inps@[j] as int] by {
                        let x = rec.inps@[j];
                        assert(records[i as int].inps@[j] < records[i as int].out);
                        assert forall|k: int| i + 1 <= k < records.len() implies (
                        #[trigger] records[k]).out != x by {
                            assert(records[i as int].out < records[k].out);
                        }
                        lemma_forward_frame(next, records, training, i + 1, x);
                    }
                }
                assert(end.0.update(rec.out as int, t) =~= end.0);
            },
        }
    }
}

/// A forward pass is idempotent: a second pass over operations that are
/// functions of their inputs, with no tensor changed in between, leaves
/// every tensor as the first pass left it, and ends as the first did.
pub proof fn lemma_forward_idempotent<V: Scalar, F: Function<V>>(
    g: GraphModel<V, F>,
    training: bool,
)
    requires
        g.wf(),
    ensures
        forward_from(
            forward_from(g.tensors, g.records, training, 0).0,
            g.records,
            training,
            0,
        ) == forward_from(g.tensors, g.records, training, 0),
{
    lemma_forward_replay(g, g.tensors, training, 0);
}

/// Adding a gradient changes the slot of its id and no other.
pub proof fn lemma_accumulate_frame<V: Scalar>(
    tensors: Seq<TensorModel<V>>,
    grads: Seq<TensorModel<V>>,
    id: TensorId,
    add: TensorModel<V>,
    x: TensorId,
)
    requires
        grads.len() == tensors.len(),
    ensures
        accumulate(tensors, grads, id, add).0.len() == grads.len(),
        x != id && x < grads.len() ==> accumulate(tensors, grads, id, add).0[x as int]
            == grads[x as int],
{
}

/// Adding gradients for a list of ids changes no slot outside the list.
pub proof fn lemma_accumulate_all_frame<V: Scalar>(
    tensors: Seq<TensorModel<V>>,
    grads: Seq<TensorModel<V>>,
    ids: Seq<TensorId>,
    adds: Seq<TensorModel<V>>,
    j: nat,
    x: TensorId,
)
    requires
        grads.len() == tensors.len(),
        forall|q: int| j <= q < ids.len() ==> ids[q] != x,
    ensures
        accumulate_all(tensors, grads, ids, adds, j).0.len() == grads.len(),
        x < grads.len() ==> accumulate_all(tensors, grads, ids, adds, j).0[x as int]
            == grads[x as int],
    decreases ids.len() - j,
{
    if j < ids.len() && j < adds.len() {
        let step = accumulate(tensors, grads, ids[j as int], adds[j as int]);
        lemma_accumulate_frame(tensors, grads, ids[j as int], adds[j as int], x);
        if step.1 is Ok {
            lemma_accumulate_all_frame(tensors, step.0, ids, adds, j + 1, x);
        }
    }
}

/// Whether `x` is an input of one of the records that a backward pass
/// visits after `visited` of them, the pass stopping after `stop`.
pub open spec fn reached<F>(
    records: Seq<Computation<F>>,
    visited: nat,
    stop: nat,
    x: TensorId,
) -> bool {
    exists|v: int, j: int|
        visited <= v < stop && v < records.len() && 0 <= j < records[records.len() - 1 - v].inps@.len()
            && #[trigger] records[records.len() - 1 - v].inps@[j] == x
}

/// The visits of a backward pass change no gradient but those of the
/// inputs of the records visited.
pub proof fn lemma_backward_frame<V: Scalar, F: Function<V>>(
    tensors: Seq<TensorModel<V>>,
    grads: Seq<TensorModel<V>>,
    records: Seq<Computation<F>>,
    visited: nat,
    stop: nat,
    x: TensorId,
)
    requires
        grads.len() == tensors.len(),
        !reached(records, visited, stop, x),
    ensures
        backward_from(tensors, grads, records, visited, stop).0.len() == grads.len(),
        x < grads.len() ==> backward_from(tensors, grads, records, visited, stop).0[x as int]
            == grads[x as int],
    decreases records.len() - visited,
{
    if visited < stop && visited < records.len() {
        let rec = records[records.len() - 1 - visited];
        match rec.func.grad_spec(gather(tensors, rec.inps@), grads[rec.out as int]) {
            Err(_) => {},
            Ok(gs) => {
                assert forall|q: int| 0 <= q < rec.inps@.len() implies rec.inps@[q] != x by {
                    if rec.inps@[q] == x {
                        assert(records[records.len() - 1 - visited].inps@[q] == x);
                    }
                }
                let step = accumulate_all(tensors, grads, rec.inps@, gs, 0);
                lemma_accumulate_all_frame(tensors, grads, rec.inps@, gs, 0, x);
                if step.1 is Ok {
                    assert(!reached(records, visited + 1, stop, x)) by {
                        if reached(records, visited + 1, stop, x) {
                            let (v, j) = choose|v: int, j: int|
                                visited + 1 <= v < stop && v < records.len() && 0 <= j
                                    < records[records.len() - 1 - v].inps@.len()
                                    && #[trigger] records[records.len() - 1 - v].inps@[j] == x;
                            assert(records[records.len() - 1 - v].inps@[j] == x);
                        }
                    }
                    lemma_backward_frame(tensors, step.0, records, visited + 1, stop, x);
                }
            },
        }
    }
}

/// Truncation: a backward pass with a limit changes the gradient of the
/// tensor it starts from and of the inputs of the newest records, as many
/// as the limit says. Every other gradient stays as it was before the
/// pass, whether the pass succeeds or fails.
pub proof fn lemma_backward_truncated<V: Scalar, F: Function<V>>(
    g: GraphModel<V, F>,
    id: TensorId,
    loss: Result<(TensorModel<V>, TensorModel<V>), TensorError>,
    limit: Option<usize>,
    x: TensorId,
)
    requires
        g.wf(),
        x < g.tensors.len(),
        x != id,
        !reached(g.records, 0, budget(limit, g.records.len()), x),
    ensures
        backward_spec(g, id, loss, limit).0.len() == g.grads.len(),
        backward_spec(g, id, loss, limit).0[x as int] == g.grads[x as int],
{
    if id < g.tensors.len() {
        match loss {
            Err(_) => {},
            Ok(pair) => match seed_spec(pair.0, pair.1) {
                Err(_) => {},
                Ok(seed) => {
                    let seeded = accumulate(g.tensors, g.grads, id, seed);
                    lemma_accumulate_frame(g.tensors, g.grads, id, seed, x);
                    if seeded.1 is Ok {
                        lemma_backward_frame(
                            g.tensors,
                            seeded.0,
                            g.records,
                            0,
                            budget(limit, g.records.len()),
                            x,
                        );
                    }
                },
            },
        }
    }
}

/// Accumulation: two gradients added for one id are summed into its slot,
/// element by element, on top of what the slot held: the second does not
/// replace the first. No other slot changes. This is stated of gradients
/// in the shape of the tensor and of its slot.
pub proof fn lemma_add_grad_twice<V: Scalar>(
    tensors: Seq<TensorModel<V>>,
    grads: Seq<TensorModel<V>>,
    id: TensorId,
    a: TensorModel<V>,
    b: TensorModel<V>,
)
    requires
        grads.len() == tensors.len(),
        id < tensors.len(),
        grads[id as int].shape == tensors[id as int].shape,
        a.shape == tensors[id as int].shape,
        b.shape == tensors[id as int].shape,
        a.blob.len() == grads[id as int].blob.len(),
        b.blob.len() == grads[id as int].blob.len(),
    ensures
        ({
            let first = accumulate(tensors, grads, id, a);
            let second = accumulate(tensors, first.0, id, b);
            &&& first.1 is Ok
            &&& second.1 is Ok
            &&& second.0.len() == grads.len()
            &&& second.0[id as int].shape == grads[id as int].shape
            &&& second.0[id as int].blob.len() == grads[id as int].blob.len()
            &&& forall|i: int|
                0 <= i < grads[id as int].blob.len() ==> #[trigger] second.0[id as int].blob[i]
                    == grads[id as int].blob[i].plus_spec(a.blob[i]).plus_spec(b.blob[i])
            &&& forall|x: int|
                0 <= x < grads.len() && x != id ==> #[trigger] second.0[x] == grads[x]
        }),
{
    let slot = grads[id as int];
    let n = slot.blob.len();
    let shape = slot.shape;
    assert(shape.skip(0) =~= shape);
    assert(crate::shape::is_suffix(shape, shape));
    let first = accumulate(tensors, grads, id, a);
    let mid = first.0[id as int];
    assert forall|i: int| 0 <= i < n implies #[trigger] mid.blob[i] == slot.blob[i].plus_spec(
        a.blob[i],
    ) by {
        vstd::arithmetic::div_mod::lemma_small_mod(i as nat, n);
    }
    let second = accumulate(tensors, first.0, id, b);
    assert forall|i: int| 0 <= i < n implies #[trigger] second.0[id as int].blob[i]
        == slot.blob[i].plus_spec(a.blob[i]).plus_spec(b.blob[i]) by {
        vstd::arithmetic::div_mod::lemma_small_mod(i as nat, n);
    }
}

/// A gradient that is added to a slot in the shape of its tensor leaves
/// the slot in that shape: what broadcasting brought is summed away or
/// repeated before the slot is written.
pub proof fn lemma_accumulate_keeps_shapes<V: Scalar>(
    tensors: Seq<TensorModel<V>>,
    grads: Seq<TensorModel<V>>,
    id: TensorId,
    add: TensorModel<V>,
)
    requires
        grads.len() == tensors.len(),
        forall|i: int| 0 <= i < tensors.len() ==> (#[trigger] grads[i]).shape == tensors[i].shape,
    ensures
        accumulate(tensors, grads, id, add).0.len() == grads.len(),
        forall|i: int|
            0 <= i < tensors.len() ==> (#[trigger] accumulate(
                tensors,
                grads,
                id,
                add,
            ).0[i]).shape == tensors[i].shape,
{
    if id < tensors.len() {
        let slot = grads[id as int];
        let rank = tensors[id as int].shape.len();
        assert(slot.shape.skip(0) =~= slot.shape);
        if add.shape.len() >= rank + 1 {
            match add.sum_leading(rank) {
                Ok(sum) => {
                    assert(sum.shape.len() == rank);
                    assert(sum.shape.skip(0) =~= sum.shape);
                },
                Err(_) => {},
            }
        }
    }
}

/// Adding gradients for a list of ids keeps every slot in the shape of
/// its tensor.
pub proof fn lemma_accumulate_all_keeps_shapes<V: Scalar>(
    tensors: Seq<TensorModel<V>>,
    grads: Seq<TensorModel<V>>,
    ids: Seq<TensorId>,
    adds: Seq<TensorModel<V>>,
    j: nat,
)
    requires
        grads.len() == tensors.len(),
        forall|i: int| 0 <= i < tensors.len() ==> (#[trigger] grads[i]).shape == tensors[i].shape,
    ensures
        accumulate_all(tensors, grads, ids, adds, j).0.len() == grads.len(),
        forall|i: int|
            0 <= i < tensors.len() ==> (#[trigger] accumulate_all(
                tensors,
                grads,
                ids,
                adds,
                j,
            ).0[i]).shape == tensors[i].shape,
    decreases ids.len() - j,
{
    if j < ids.len() && j < adds.len() {
        let step = accumulate(tensors, grads, ids[j as int], adds[j as int]);
        lemma_accumulate_keeps_shapes(tensors, grads, ids[j as int], adds[j as int]);
        if step.1 is Ok {
            lemma_accumulate_all_keeps_shapes(tensors, step.0, ids, adds, j + 1);
        }
    }
}

/// The visits of a backward pass keep every gradient in the shape of its
/// tensor.
pub proof fn lemma_backward_from_keeps_shapes<V: Scalar, F: Function<V>>(
    tensors: Seq<TensorModel<V>>,
    grads: Seq<TensorModel<V>>,
    records: Seq<Computation<F>>,
    visited: nat,
    stop: nat,
)
    requires
        grads.len() == tensors.len(),
        forall|i: int| 0 <= i < tensors.len() ==> (#[trigger] grads[i]).shape == tensors[i].shape,
    ensures
        backward_from(tensors, grads, records, visited, stop).0.len() == grads.len(),
        forall|i: int|
            0 <= i < tensors.len() ==> (#[trigger] backward_from(
                tensors,
                grads,
                records,
                visited,
                stop,
            ).0[i]).shape == tensors[i].shape,
    decreases records.len() - visited,
{
    if visited < stop && visited < records.len() {
        let rec = records[records.len() - 1 - visited];
        match rec.func.grad_spec(gather(tensors, rec.inps@), grads[rec.out as int]) {
            Err(_) => {},
            Ok(gs) => {
                let step = accumulate_all(tensors, grads, rec.inps@, gs, 0);
                lemma_accumulate_all_keeps_shapes(tensors, grads, rec.inps@, gs, 0);
                if step.1 is Ok {
                    lemma_backward_from_keeps_shapes(
                        tensors,
                        step.0,
                        records,
                        visited + 1,
                        stop,
                    );
                }
            },
        }
    }
}

/// A backward pass over a graph whose gradients have the shapes of their
/// tensors leaves them in those shapes, whether it succeeds or fails.
pub proof fn lemma_backward_keeps_shapes<V: Scalar, F: Function<V>>(
    g: GraphModel<V, F>,
    id: TensorId,
    loss: Result<(TensorModel<V>, TensorModel<V>), TensorError>,
    limit: Option<usize>,
)
    requires
        g.wf(),
        g.shapes_agree(),
    ensures
        backward_spec(g, id, loss, limit).0.len() == g.grads.len(),
        forall|i: int|
            0 <= i < g.tensors.len() ==> (#[trigger] backward_spec(
                g,
                id,
                loss,
                limit,
            ).0[i]).shape == g.tensors[i].shape,
{
    if id < g.tensors.len() {
        match loss {
            Err(_) => {},
            Ok(pair) => match seed_spec(pair.0, pair.1) {
                Err(_) => {},
                Ok(seed) => {
                    let seeded = accumulate(g.tensors, g.grads, id, seed);
                    lemma_accumulate_keeps_shapes(g.tensors, g.grads, id, seed);
                    if seeded.1 is Ok {
                        lemma_backward_from_keeps_shapes(
                            g.tensors,
                            seeded.0,
                            g.records,
                            0,
                            budget(limit, g.records.len()),
                        );
                    }
                },
            },
        }
    }
}

/// Tensors of one shape have a sum, in that shape.
pub proof fn lemma_plus_of_one_shape<V: Scalar>(u: TensorModel<V>, v: TensorModel<V>)
    requires
        u.shape == v.shape,
        u.blob.len() == v.blob.len(),
    ensures
        u.plus(v) is Ok,
        u.plus(v)->Ok_0.shape == u.shape,
        u.plus(v)->Ok_0.blob.len() == u.blob.len(),
{
    assert(u.shape.skip(0) =~= u.shape);
}

/// The diamond: a tensor `x` feeds two operations, whose outputs `a` and
/// `b` are the inputs of a sum `c`. After a backward pass from `c` the
/// gradient of `x` is what it was before, plus what came back through `b`,
/// plus what came back through `a`: the contributions of both paths are
/// added, and neither replaces the other.
///
/// `x`, `a`, `b`, `c` are the tensors 0 to 3, all of one shape, and the
/// gradients that the two operations give are in that shape too.
pub proof fn lemma_diamond<V: Scalar, F: Function<V>>(
    g: GraphModel<V, F>,
    loss: TensorModel<V>,
    grad: TensorModel<V>,
)
    requires
        g.wf(),
        g.tensors.len() == 4,
        g.records.len() == 3,
        g.records[0].out == 1 && g.records[0].inps@ == seq![0usize],
        g.records[1].out == 2 && g.records[1].inps@ == seq![0usize],
        g.records[2].out == 3 && g.records[2].inps@ == seq![1usize, 2usize],
        forall|i: int|
            0 <= i < 4 ==> (#[trigger] g.tensors[i]).shape == g.tensors[0].shape
                && g.grads[i].shape == g.tensors[0].shape && g.grads[i].blob.len()
                == g.grads[0].blob.len(),
        forall|inps: Seq<TensorModel<V>>, out_grad: TensorModel<V>| #[trigger]
            g.records[2].func.grad_spec(inps, out_grad) == Ok::<
                Seq<TensorModel<V>>,
                TensorError,
            >(seq![out_grad, out_grad]),
        seed_spec(loss, grad) is Ok,
        seed_spec(loss, grad)->Ok_0.shape == g.tensors[0].shape,
        seed_spec(loss, grad)->Ok_0.blob.len() == g.grads[0].blob.len(),
        ({
            let at_c = g.grads[3].plus(seed_spec(loss, grad)->Ok_0)->Ok_0;
            let through_b = g.records[1].func.grad_spec(
                seq![g.tensors[0]],
                g.grads[2].plus(at_c)->Ok_0,
            );
            let through_a = g.records[0].func.grad_spec(
                seq![g.tensors[0]],
                g.grads[1].plus(at_c)->Ok_0,
            );
            &&& through_b is Ok
            &&& through_b->Ok_0.len() == 1
            &&& through_b->Ok_0[0].shape == g.tensors[0].shape
            &&& through_b->Ok_0[0].blob.len() == g.grads[0].blob.len()
            &&& through_a is Ok
            &&& through_a->Ok_0.len() == 1
            &&& through_a->Ok_0[0].shape == g.tensors[0].shape
            &&& through_a->Ok_0[0].blob.len() == g.grads[0].blob.len()
        }),
    ensures
        ({
            let at_c = g.grads[3].plus(seed_spec(loss, grad)->Ok_0)->Ok_0;
            let via_b = g.records[1].func.grad_spec(
                seq![g.tensors[0]],
                g.grads[2].plus(at_c)->Ok_0,
            )->Ok_0[0];
            let via_a = g.records[0].func.grad_spec(
                seq![g.tensors[0]],
                g.grads[1].plus(at_c)->Ok_0,
            )->Ok_0[0];
            let done = backward_spec(g, 3, Ok((loss, grad)), None);
            &&& done.1 == Ok::<V, GraphError>(loss.mean())
            &&& done.0.len() == 4
            &&& done.0[3] == at_c
            &&& done.0[2] == g.grads[2].plus(at_c)->Ok_0
            &&& done.0[1] == g.grads[1].plus(at_c)->Ok_0
            &&& done.0[0] == g.grads[0].plus(via_b)->Ok_0.plus(via_a)->Ok_0
        }),
{
    let t = g.tensors;
    let r = g.records;
    let seed = seed_spec(loss, grad)->Ok_0;
    assert(t[1].shape == t[0].shape);
    assert(t[2].shape == t[0].shape);
    assert(t[3].shape == t[0].shape);
    lemma_plus_of_one_shape(g.grads[3], seed);
    let at_c = g.grads[3].plus(seed)->Ok_0;
    let g1 = g.grads.update(3, at_c);
    assert(accumulate(t, g.grads, 3, seed) == (g1, Ok::<(), GraphError>(())));

    // The sum hands the gradient of `c` to `a` and to `b`.
    lemma_plus_of_one_shape(g.grads[1], at_c);
    lemma_plus_of_one_shape(g.grads[2], at_c);
    let at_a = g.grads[1].plus(at_c)->Ok_0;
    let at_b = g.grads[2].plus(at_c)->Ok_0;
    let g2 = g1.update(1, at_a);
    let g3 = g2.update(2, at_b);
    let both = seq![at_c, at_c];
    assert(accumulate(t, g1, 1, at_c) == (g2, Ok::<(), GraphError>(())));
    assert(accumulate(t, g2, 2, at_c) == (g3, Ok::<(), GraphError>(())));
    assert(accumulate_all(t, g3, r[2].inps@, both, 2) == (g3, Ok::<(), GraphError>(())));
    assert(accumulate_all(t, g2, r[2].inps@, both, 1) == (g3, Ok::<(), GraphError>(())));
    assert(accumulate_all(t, g1, r[2].inps@, both, 0) == (g3, Ok::<(), GraphError>(())));

    // Then `b` hands its share to `x`, and then `a` does.
    assert(gather(t, r[1].inps@) =~= seq![t[0]]);
    assert(gather(t, r[0].inps@) =~= seq![t[0]]);
    let from_b = r[1].func.grad_spec(seq![t[0]], at_b)->Ok_0;
    let from_a = r[0].func.grad_spec(seq![t[0]], at_a)->Ok_0;
    let via_b = from_b[0];
    let via_a = from_a[0];
    lemma_plus_of_one_shape(g.grads[0], via_b);
    let first = g.grads[0].plus(via_b)->Ok_0;
    lemma_plus_of_one_shape(first, via_a);
    let second = first.plus(via_a)->Ok_0;
    let g4 = g3.update(0, first);
    let g5 = g4.update(0, second);
    assert(accumulate(t, g3, 0, via_b) == (g4, Ok::<(), GraphError>(())));
    assert(accumulate_all(t, g4, r[1].inps@, from_b, 1) == (g4, Ok::<(), GraphError>(())));
    assert(accumulate_all(t, g3, r[1].inps@, from_b, 0) == (g4, Ok::<(), GraphError>(())));
    assert(accumulate(t, g4, 0, via_a) == (g5, Ok::<(), GraphError>(())));
    assert(accumulate_all(t, g5, r[0].inps@, from_a, 1) == (g5, Ok::<(), GraphError>(())));
    assert(accumulate_all(t, g4, r[0].inps@, from_a, 0) == (g5, Ok::<(), GraphError>(())));

    assert(backward_from(t, g5, r, 3, 3) == (g5, Ok::<(), GraphError>(())));
    assert(g4[1] == at_a);
    assert(backward_from(t, g4, r, 2, 3) == (g5, Ok::<(), GraphError>(())));
    assert(g3[2] == at_b);
    assert(backward_from(t, g3, r, 1, 3) == (g5, Ok::<(), GraphError>(())));
    assert(g1[3] == at_c);
    assert(backward_from(t, g1, r, 0, 3) == (g5, Ok::<(), GraphError>(())));
    assert(budget(None, 3) == 3);
}

} // verus!
