use femto_gpt::funcs::{Add, Coeff, Function, Identity, Loss, Mask};
use femto_gpt::graph::{Graph, GraphError, TensorId};
use femto_gpt::optimizer::Optimizer;
use femto_gpt::tensor::{Tensor, TensorError};
use rand::rngs::StdRng;
use rand::{RngCore, SeedableRng};
use std::collections::HashSet;

/// A loss with a gradient given in advance.
struct Fixed {
    loss: Tensor<i64>,
    grad: Tensor<i64>,
}

impl Loss<i64> for Fixed {
    fn run(&self, _output: &Tensor<i64>) -> Result<(Tensor<i64>, Tensor<i64>), TensorError> {
        Ok((self.loss.clone(), self.grad.clone()))
    }
}

/// A loss that fails.
struct Broken;

impl Loss<i64> for Broken {
    fn run(&self, _output: &Tensor<i64>) -> Result<(Tensor<i64>, Tensor<i64>), TensorError> {
        Err(TensorError::ShapeMismatch)
    }
}

/// An operation that fails in both directions.
struct Failing;

impl Function<i64> for Failing {
    fn run(&self, _inps: &[&Tensor<i64>], _training: bool) -> Result<Tensor<i64>, TensorError> {
        Err(TensorError::ShapeMismatch)
    }

    fn grad(
        &self,
        _inps: &[&Tensor<i64>],
        _out_grad: &Tensor<i64>,
    ) -> Result<Vec<Tensor<i64>>, TensorError> {
        Err(TensorError::MalformedBuffer)
    }
}

/// An operation that copies its input and has no gradient to give.
struct Stubborn;

impl Function<i64> for Stubborn {
    fn run(&self, inps: &[&Tensor<i64>], _training: bool) -> Result<Tensor<i64>, TensorError> {
        Ok(inps[0].clone())
    }

    fn grad(
        &self,
        _inps: &[&Tensor<i64>],
        _out_grad: &Tensor<i64>,
    ) -> Result<Vec<Tensor<i64>>, TensorError> {
        Err(TensorError::MalformedBuffer)
    }
}

/// An operation that doubles while training and copies otherwise.
struct Mode;

impl Function<i64> for Mode {
    fn run(&self, inps: &[&Tensor<i64>], training: bool) -> Result<Tensor<i64>, TensorError> {
        Ok(inps[0].scale(if training { 2 } else { 1 }))
    }

    fn grad(
        &self,
        _inps: &[&Tensor<i64>],
        out_grad: &Tensor<i64>,
    ) -> Result<Vec<Tensor<i64>>, TensorError> {
        Ok(vec![out_grad.clone()])
    }
}

/// Gradient descent that notes the first element of every parameter it
/// is handed, in the order in which it is handed them.
struct Descent {
    seen: Vec<i64>,
    fail: bool,
}

impl Optimizer<i64> for Descent {
    fn step(
        &mut self,
        params: &mut [Tensor<i64>],
        grads: &[&Tensor<i64>],
        learning_rate: i64,
    ) -> Result<(), TensorError> {
        for (p, g) in params.iter_mut().zip(grads.iter()) {
            self.seen.push(p.blob()[0]);
            *p = p.plus(&g.scale(-learning_rate))?;
        }
        if self.fail {
            Err(TensorError::ShapeMismatch)
        } else {
            Ok(())
        }
    }
}

fn tensor(shape: &[usize], blob: &[i64]) -> Tensor<i64> {
    Tensor::raw(shape, blob.to_vec()).unwrap()
}

fn op<F: Function<i64> + 'static>(f: F) -> Box<dyn Function<i64>> {
    Box::new(f)
}

fn chain() -> (Graph<i64>, TensorId, TensorId, TensorId, TensorId) {
    let mut g: Graph<i64> = Graph::new();
    let x = g.allocate(tensor(&[1, 1], &[1]), "x".to_string());
    let a = g.call(op(Coeff::new(2)), &[x]).unwrap();
    let b = g.call(op(Coeff::new(3)), &[a]).unwrap();
    let c = g.call(op(Coeff::new(5)), &[b]).unwrap();
    (g, x, a, b, c)
}

fn grad_of(g: &Graph<i64>, id: TensorId) -> Vec<i64> {
    g.get_grad(id).unwrap().blob().to_vec()
}

fn value_of(g: &Graph<i64>, id: TensorId) -> Vec<i64> {
    g.get(id).unwrap().blob().to_vec()
}

#[test]
fn new_graph_is_empty() {
    let g: Graph<i64> = Graph::new();
    assert_eq!(g.len(), 0);
    assert_eq!(g.get(0).unwrap_err(), GraphError::TensorNotFound(0));
}

#[test]
fn allocate_gives_ascending_ids_and_zero_gradients() {
    let mut g: Graph<i64> = Graph::new();
    let a = g.allocate(tensor(&[2], &[1, 2]), "first".to_string());
    let b = g.allocate(tensor(&[2, 2], &[3, 4, 5, 6]), "second".to_string());
    assert_eq!((a, b), (0, 1));
    assert_eq!(g.len(), 2);
    assert_eq!(value_of(&g, a), vec![1, 2]);
    assert_eq!(value_of(&g, b), vec![3, 4, 5, 6]);
    assert_eq!(g.get_grad(a).unwrap().shape(), &[2]);
    assert_eq!(grad_of(&g, a), vec![0, 0]);
    assert_eq!(g.get_grad(b).unwrap().shape(), &[2, 2]);
    assert_eq!(grad_of(&g, b), vec![0, 0, 0, 0]);
    assert_eq!(g.name_of(a).unwrap(), "first");
    assert_eq!(g.name_of(b).unwrap(), "second");
}

#[test]
fn accessors_report_ids_that_were_never_given_out() {
    let mut g: Graph<i64> = Graph::new();
    let a = g.allocate(tensor(&[1], &[1]), "a".to_string());
    assert!(g.get(a).is_ok());
    assert_eq!(g.get(1).unwrap_err(), GraphError::TensorNotFound(1));
    assert_eq!(g.get_grad(1).unwrap_err(), GraphError::TensorNotFound(1));
    assert_eq!(g.name_of(1).unwrap_err(), GraphError::TensorNotFound(1));
    assert_eq!(g.get(usize::MAX).unwrap_err(), GraphError::TensorNotFound(usize::MAX));
    assert_eq!(g.get_grad(usize::MAX).unwrap_err(), GraphError::TensorNotFound(usize::MAX));
}

#[test]
fn alloc_rand_draws_a_tensor_of_the_shape() {
    let mut rng = StdRng::seed_from_u64(7);
    let mut g: Graph<i64> = Graph::new();
    let a = g.alloc_rand(&mut rng, &[3, 2], "w".to_string()).unwrap();
    let b = g.alloc_rand(&mut rng, &[3, 2], "v".to_string()).unwrap();
    assert_eq!((a, b), (0, 1));
    assert_eq!(g.get(a).unwrap().shape(), &[3, 2]);
    assert_eq!(g.get(a).unwrap().size(), 6);
    assert_eq!(grad_of(&g, a), vec![0; 6]);
    assert_eq!(g.get_grad(a).unwrap().shape(), &[3, 2]);
    assert_eq!(g.name_of(a).unwrap(), "w");
    assert_ne!(value_of(&g, a), value_of(&g, b));
    assert!(value_of(&g, a).iter().all(|v| 0 <= *v && *v <= u32::MAX as i64));
    let mut words = StdRng::seed_from_u64(7);
    let expected: Vec<i64> = (0..6).map(|_| words.next_u32() as i64).collect();
    assert_eq!(value_of(&g, a), expected);
}

#[test]
fn alloc_rand_draws_nothing_for_an_empty_shape() {
    let mut rng = StdRng::seed_from_u64(7);
    let mut fresh = StdRng::seed_from_u64(7);
    let mut g: Graph<i64> = Graph::new();
    let a = g.alloc_rand(&mut rng, &[4, 0], "none".to_string()).unwrap();
    assert_eq!(g.get(a).unwrap().size(), 0);
    assert_eq!(rng.next_u32(), fresh.next_u32());
    let s = g.alloc_rand(&mut rng, &[], "one".to_string()).unwrap();
    assert_eq!(g.get(s).unwrap().size(), 1);
    assert_eq!(g.get(s).unwrap().dim(), 0);
}

#[test]
fn alloc_rand_refuses_a_shape_beyond_the_machine() {
    let mut rng = StdRng::seed_from_u64(7);
    let mut g: Graph<i64> = Graph::new();
    assert_eq!(
        g.alloc_rand(&mut rng, &[usize::MAX, 2], "big".to_string()).unwrap_err(),
        GraphError::TensorError(TensorError::MalformedBuffer)
    );
    assert_eq!(g.len(), 0);
}

#[test]
fn load_overwrites_a_slot() {
    let mut g: Graph<i64> = Graph::new();
    let a = g.allocate(tensor(&[2], &[1, 2]), "a".to_string());
    g.load(a, &tensor(&[3], &[7, 8, 9])).unwrap();
    assert_eq!(g.get(a).unwrap().shape(), &[3]);
    assert_eq!(value_of(&g, a), vec![7, 8, 9]);
    assert_eq!(grad_of(&g, a), vec![0, 0]);
    assert_eq!(g.load(5, &tensor(&[1], &[1])).unwrap_err(), GraphError::TensorNotFound(5));
    g.load_grad(a, &tensor(&[2], &[3, 4])).unwrap();
    assert_eq!(grad_of(&g, a), vec![3, 4]);
    assert_eq!(value_of(&g, a), vec![7, 8, 9]);
    assert_eq!(g.load_grad(1, &tensor(&[1], &[1])).unwrap_err(), GraphError::TensorNotFound(1));
}

#[test]
fn zero_grad_resets_every_gradient_in_its_shape() {
    let mut g: Graph<i64> = Graph::new();
    let a = g.allocate(tensor(&[2], &[1, 2]), "a".to_string());
    let b = g.allocate(tensor(&[1, 3], &[1, 2, 3]), "b".to_string());
    g.add_grad(a, tensor(&[2], &[5, 6])).unwrap();
    g.load_grad(b, &tensor(&[2, 2], &[1, 2, 3, 4])).unwrap();
    g.zero_grad();
    assert_eq!(grad_of(&g, a), vec![0, 0]);
    assert_eq!(g.get_grad(b).unwrap().shape(), &[2, 2]);
    assert_eq!(grad_of(&g, b), vec![0, 0, 0, 0]);
    assert_eq!(value_of(&g, a), vec![1, 2]);
    assert_eq!(value_of(&g, b), vec![1, 2, 3]);
}

#[test]
fn add_grad_sums_instead_of_overwriting() {
    let mut g: Graph<i64> = Graph::new();
    let a = g.allocate(tensor(&[2], &[0, 0]), "a".to_string());
    let b = g.allocate(tensor(&[2], &[0, 0]), "b".to_string());
    g.add_grad(a, tensor(&[2], &[1, 2])).unwrap();
    assert_eq!(grad_of(&g, a), vec![1, 2]);
    g.add_grad(a, tensor(&[2], &[10, 20])).unwrap();
    assert_eq!(grad_of(&g, a), vec![11, 22]);
    assert_eq!(grad_of(&g, b), vec![0, 0]);
    assert_eq!(value_of(&g, a), vec![0, 0]);
}

#[test]
fn add_grad_sums_over_leading_dimensions() {
    let mut g: Graph<i64> = Graph::new();
    let a = g.allocate(tensor(&[3], &[0, 0, 0]), "a".to_string());
    g.add_grad(a, tensor(&[3], &[1, 1, 1])).unwrap();
    g.add_grad(a, tensor(&[2, 3], &[1, 2, 3, 10, 20, 30])).unwrap();
    assert_eq!(g.get_grad(a).unwrap().shape(), &[3]);
    assert_eq!(grad_of(&g, a), vec![12, 23, 34]);
    g.add_grad(a, tensor(&[2, 1, 3], &[1, 0, 0, 0, 1, 0])).unwrap();
    assert_eq!(grad_of(&g, a), vec![13, 24, 34]);
}

#[test]
fn add_grad_repeats_a_gradient_of_lower_rank() {
    let mut g: Graph<i64> = Graph::new();
    let a = g.allocate(tensor(&[2, 2], &[0, 0, 0, 0]), "a".to_string());
    g.add_grad(a, tensor(&[2], &[1, 2])).unwrap();
    assert_eq!(g.get_grad(a).unwrap().shape(), &[2, 2]);
    assert_eq!(grad_of(&g, a), vec![1, 2, 1, 2]);
    g.add_grad(a, Tensor::scalar(5)).unwrap();
    assert_eq!(grad_of(&g, a), vec![6, 7, 6, 7]);
}

#[test]
fn add_grad_fails_without_changing_the_slot() {
    let mut g: Graph<i64> = Graph::new();
    let a = g.allocate(tensor(&[2], &[0, 0]), "a".to_string());
    g.add_grad(a, tensor(&[2], &[1, 2])).unwrap();
    assert_eq!(
        g.add_grad(a, tensor(&[3], &[1, 2, 3])).unwrap_err(),
        GraphError::TensorError(TensorError::InvalidBroadcast)
    );
    assert_eq!(
        g.add_grad(a, tensor(&[2, 3], &[1, 2, 3, 4, 5, 6])).unwrap_err(),
        GraphError::TensorError(TensorError::InvalidBroadcast)
    );
    assert_eq!(
        g.add_grad(7, tensor(&[2], &[1, 2])).unwrap_err(),
        GraphError::TensorNotFound(7)
    );
    assert_eq!(grad_of(&g, a), vec![1, 2]);
}

#[test]
fn call_evaluates_and_records() {
    let mut g: Graph<i64> = Graph::new();
    let a = g.allocate(tensor(&[1, 1], &[64]), "a".to_string());
    let b = g.allocate(tensor(&[1, 1], &[36]), "b".to_string());
    let c = g.call(op(Add::new()), &[a, b]).unwrap();
    assert_eq!(c, 2);
    assert_eq!(g.len(), 3);
    assert_eq!(value_of(&g, c), vec![100]);
    assert_eq!(g.get(c).unwrap().shape(), &[1, 1]);
    assert_eq!(grad_of(&g, c), vec![0]);
    assert_eq!(g.name_of(c).unwrap(), "");
}

#[test]
fn call_runs_in_inference_mode() {
    let mut g: Graph<i64> = Graph::new();
    let a = g.allocate(tensor(&[1], &[7]), "a".to_string());
    let b = g.call(op(Mode), &[a]).unwrap();
    assert_eq!(value_of(&g, b), vec![7]);
    g.forward(true).unwrap();
    assert_eq!(value_of(&g, b), vec![14]);
    g.forward(false).unwrap();
    assert_eq!(value_of(&g, b), vec![7]);
}

#[test]
fn call_reports_the_first_missing_input() {
    let mut g: Graph<i64> = Graph::new();
    let a = g.allocate(tensor(&[1], &[1]), "a".to_string());
    assert_eq!(
        g.call(op(Add::new()), &[a, 9, 4]).unwrap_err(),
        GraphError::TensorNotFound(9)
    );
    assert_eq!(
        g.call(op(Add::new()), &[1, a]).unwrap_err(),
        GraphError::TensorNotFound(1)
    );
    assert_eq!(g.len(), 1);
}

#[test]
fn call_that_fails_records_nothing() {
    let mut g: Graph<i64> = Graph::new();
    let a = g.allocate(tensor(&[2], &[1, 2]), "a".to_string());
    let b = g.allocate(tensor(&[3], &[1, 2, 3]), "b".to_string());
    assert_eq!(
        g.call(op(Add::new()), &[a, b]).unwrap_err(),
        GraphError::TensorError(TensorError::InvalidBroadcast)
    );
    assert_eq!(
        g.call(op(Failing), &[a]).unwrap_err(),
        GraphError::TensorError(TensorError::ShapeMismatch)
    );
    assert_eq!(g.len(), 2);
    g.load(a, &tensor(&[2], &[5, 5])).unwrap();
    g.forward(false).unwrap();
    assert_eq!(value_of(&g, a), vec![5, 5]);
}

#[test]
fn forward_recomputes_in_creation_order() {
    let (mut g, x, a, b, c) = chain();
    assert_eq!(value_of(&g, c), vec![30]);
    g.load(x, &tensor(&[1, 1], &[2])).unwrap();
    assert_eq!(value_of(&g, c), vec![30]);
    g.forward(false).unwrap();
    assert_eq!(value_of(&g, x), vec![2]);
    assert_eq!(value_of(&g, a), vec![4]);
    assert_eq!(value_of(&g, b), vec![12]);
    assert_eq!(value_of(&g, c), vec![60]);
}

#[test]
fn forward_twice_changes_nothing() {
    let (mut g, x, a, b, c) = chain();
    g.load(x, &tensor(&[1, 1], &[7])).unwrap();
    g.forward(false).unwrap();
    let first: Vec<Vec<i64>> = [x, a, b, c].iter().map(|id| value_of(&g, *id)).collect();
    g.forward(false).unwrap();
    let second: Vec<Vec<i64>> = [x, a, b, c].iter().map(|id| value_of(&g, *id)).collect();
    assert_eq!(first, second);
    assert_eq!(second, vec![vec![7], vec![14], vec![42], vec![210]]);
}

#[test]
fn forward_overwrites_a_derived_tensor_that_was_loaded() {
    let (mut g, _x, a, b, _c) = chain();
    g.load(a, &tensor(&[1, 1], &[1000])).unwrap();
    g.forward(false).unwrap();
    assert_eq!(value_of(&g, a), vec![2]);
    assert_eq!(value_of(&g, b), vec![6]);
}

#[test]
fn forward_stops_at_the_first_failure() {
    let mut g: Graph<i64> = Graph::new();
    let x = g.allocate(tensor(&[2], &[1, 2]), "x".to_string());
    let y = g.allocate(tensor(&[2], &[10, 20]), "y".to_string());
    let d = g.call(op(Coeff::new(2)), &[x]).unwrap();
    let s = g.call(op(Add::new()), &[x, y]).unwrap();
    let t = g.call(op(Coeff::new(3)), &[d]).unwrap();
    assert_eq!(value_of(&g, t), vec![6, 12]);
    g.load(x, &tensor(&[2], &[5, 6])).unwrap();
    g.load(y, &tensor(&[3], &[1, 2, 3])).unwrap();
    assert_eq!(
        g.forward(false).unwrap_err(),
        GraphError::TensorError(TensorError::InvalidBroadcast)
    );
    assert_eq!(value_of(&g, d), vec![10, 12]);
    assert_eq!(value_of(&g, s), vec![11, 22]);
    assert_eq!(value_of(&g, t), vec![6, 12]);
    assert_eq!(
        g.forward(false).unwrap_err(),
        GraphError::TensorError(TensorError::InvalidBroadcast)
    );
    assert_eq!(value_of(&g, d), vec![10, 12]);
    assert_eq!(value_of(&g, t), vec![6, 12]);
}

#[test]
fn backward_reaches_both_inputs_of_a_sum() {
    let mut g: Graph<i64> = Graph::new();
    let a = g.allocate(tensor(&[1, 1], &[64]), "a".to_string());
    let b = g.allocate(tensor(&[1, 1], &[36]), "b".to_string());
    let c = g.call(op(Add::new()), &[a, b]).unwrap();
    g.forward(false).unwrap();
    assert_eq!(value_of(&g, c), vec![100]);
    let loss = g.backward_all(c, Box::new(Identity), None).unwrap();
    assert_eq!(loss, 100);
    assert_eq!(grad_of(&g, c), vec![1]);
    assert_eq!(grad_of(&g, a), vec![1]);
    assert_eq!(grad_of(&g, b), vec![1]);
    assert_eq!(g.get_grad(a).unwrap().shape(), &[1, 1]);
}

#[test]
fn backward_adds_the_contributions_of_both_paths() {
    let mut g: Graph<i64> = Graph::new();
    let x = g.allocate(tensor(&[1, 1], &[4]), "x".to_string());
    let a = g.call(op(Coeff::new(2)), &[x]).unwrap();
    let b = g.call(op(Coeff::new(3)), &[x]).unwrap();
    let c = g.call(op(Add::new()), &[a, b]).unwrap();
    assert_eq!(value_of(&g, c), vec![20]);
    let loss = g.backward_all(c, Box::new(Identity), None).unwrap();
    assert_eq!(loss, 20);
    assert_eq!(grad_of(&g, c), vec![1]);
    assert_eq!(grad_of(&g, a), vec![1]);
    assert_eq!(grad_of(&g, b), vec![1]);
    assert_eq!(grad_of(&g, x), vec![5]);
}

#[test]
fn backward_accumulates_over_passes_until_zeroed() {
    let (mut g, x, _a, _b, c) = chain();
    g.backward_all(c, Box::new(Identity), None).unwrap();
    assert_eq!(grad_of(&g, x), vec![30]);
    g.backward_all(c, Box::new(Identity), None).unwrap();
    assert_eq!(grad_of(&g, c), vec![2]);
    assert_eq!(grad_of(&g, x), vec![150]);
    g.zero_grad();
    g.backward_all(c, Box::new(Identity), None).unwrap();
    assert_eq!(grad_of(&g, x), vec![30]);
}

#[test]
fn backward_with_a_limit_visits_the_newest_records_only() {
    let (mut g, x, a, b, c) = chain();
    g.backward_all(c, Box::new(Identity), Some(1)).unwrap();
    assert_eq!(grad_of(&g, c), vec![1]);
    assert_eq!(grad_of(&g, b), vec![5]);
    assert_eq!(grad_of(&g, a), vec![0]);
    assert_eq!(grad_of(&g, x), vec![0]);
    g.zero_grad();
    g.backward_all(c, Box::new(Identity), Some(2)).unwrap();
    assert_eq!(grad_of(&g, b), vec![5]);
    assert_eq!(grad_of(&g, a), vec![15]);
    assert_eq!(grad_of(&g, x), vec![0]);
    g.zero_grad();
    g.backward_all(c, Box::new(Identity), Some(0)).unwrap();
    assert_eq!(grad_of(&g, c), vec![1]);
    assert_eq!(grad_of(&g, b), vec![0]);
    g.zero_grad();
    g.backward_all(c, Box::new(Identity), Some(3)).unwrap();
    assert_eq!(grad_of(&g, x), vec![30]);
    g.zero_grad();
    g.backward_all(c, Box::new(Identity), Some(100)).unwrap();
    assert_eq!(grad_of(&g, x), vec![30]);
}

#[test]
fn backward_with_a_limit_leaves_earlier_gradients_as_they_were() {
    let (mut g, x, a, _b, c) = chain();
    g.load_grad(x, &tensor(&[1, 1], &[7])).unwrap();
    g.load_grad(a, &tensor(&[1, 1], &[9])).unwrap();
    g.backward_all(c, Box::new(Identity), Some(1)).unwrap();
    assert_eq!(grad_of(&g, x), vec![7]);
    assert_eq!(grad_of(&g, a), vec![9]);
}

#[test]
fn backward_divides_the_seed_by_the_size_of_the_loss() {
    let mut g: Graph<i64> = Graph::new();
    let x = g.allocate(tensor(&[2], &[3, 5]), "x".to_string());
    let y = g.call(op(Coeff::new(1)), &[x]).unwrap();
    let loss = Fixed { loss: tensor(&[2], &[2, 4]), grad: tensor(&[2], &[10, 21]) };
    assert_eq!(g.backward_all(y, Box::new(loss), None).unwrap(), 3);
    assert_eq!(grad_of(&g, y), vec![0, 0]);
    let single = Fixed { loss: tensor(&[1], &[8]), grad: tensor(&[2], &[10, 21]) };
    assert_eq!(g.backward_all(y, Box::new(single), None).unwrap(), 8);
    assert_eq!(grad_of(&g, y), vec![10, 21]);
    assert_eq!(grad_of(&g, x), vec![10, 21]);
}

#[test]
fn backward_reports_what_fails() {
    let (mut g, x, _a, _b, c) = chain();
    assert_eq!(
        g.backward_all(9, Box::new(Identity), None).unwrap_err(),
        GraphError::TensorNotFound(9)
    );
    assert_eq!(
        g.backward_all(c, Box::new(Broken), None).unwrap_err(),
        GraphError::TensorError(TensorError::ShapeMismatch)
    );
    let wrong = Fixed { loss: tensor(&[1], &[1]), grad: tensor(&[3], &[1, 1, 1]) };
    assert_eq!(
        g.backward_all(c, Box::new(wrong), None).unwrap_err(),
        GraphError::TensorError(TensorError::InvalidBroadcast)
    );
    assert_eq!(grad_of(&g, c), vec![0]);
    assert_eq!(grad_of(&g, x), vec![0]);
}

#[test]
fn backward_stops_at_the_first_failure() {
    let mut g: Graph<i64> = Graph::new();
    let x = g.allocate(tensor(&[1], &[1]), "x".to_string());
    let a = g.call(op(Coeff::new(2)), &[x]).unwrap();
    let c = g.call(op(Coeff::new(5)), &[a]).unwrap();
    g.load(x, &tensor(&[3], &[0, 0, 0])).unwrap();
    g.load_grad(x, &tensor(&[2], &[0, 0])).unwrap();
    assert_eq!(
        g.backward_all(c, Box::new(Identity), None).unwrap_err(),
        GraphError::TensorError(TensorError::InvalidBroadcast)
    );
    assert_eq!(grad_of(&g, c), vec![1]);
    assert_eq!(grad_of(&g, a), vec![5]);
    assert_eq!(grad_of(&g, x), vec![0, 0]);
}

#[test]
fn backward_passes_on_a_failing_gradient_rule() {
    let mut g: Graph<i64> = Graph::new();
    let x = g.allocate(tensor(&[1], &[1]), "x".to_string());
    let a = g.call(op(Stubborn), &[x]).unwrap();
    let c = g.call(op(Coeff::new(5)), &[a]).unwrap();
    assert_eq!(g.backward_all(c, Box::new(Identity), Some(1)).unwrap(), 5);
    assert_eq!(grad_of(&g, a), vec![5]);
    assert_eq!(
        g.backward_all(c, Box::new(Identity), None).unwrap_err(),
        GraphError::TensorError(TensorError::MalformedBuffer)
    );
    assert_eq!(grad_of(&g, c), vec![2]);
    assert_eq!(grad_of(&g, a), vec![15]);
    assert_eq!(grad_of(&g, x), vec![0]);
}

#[test]
fn clone_is_a_graph_of_its_own() {
    let mut g: Graph<i64, Coeff<i64>> = Graph::new();
    let x = g.allocate(tensor(&[2], &[1, 2]), "x".to_string());
    let y = g.call(Coeff::new(4), &[x]).unwrap();
    g.add_grad(x, tensor(&[2], &[7, 7])).unwrap();
    let mut copy = g.clone();
    assert_eq!(copy.len(), 2);
    assert_eq!(copy.get(y).unwrap().blob(), &[4, 8]);
    assert_eq!(copy.get_grad(x).unwrap().blob(), &[7, 7]);
    assert_eq!(copy.name_of(x).unwrap(), "x");
    copy.load(x, &tensor(&[2], &[10, 20])).unwrap();
    copy.forward(false).unwrap();
    assert_eq!(copy.get(y).unwrap().blob(), &[40, 80]);
    assert_eq!(g.get(x).unwrap().blob(), &[1, 2]);
    g.forward(false).unwrap();
    assert_eq!(g.get(y).unwrap().blob(), &[4, 8]);
}

#[test]
fn tensor_errors_convert_into_graph_errors() {
    let e: GraphError = TensorError::ShapeMismatch.into();
    assert_eq!(e, GraphError::TensorError(TensorError::ShapeMismatch));
    assert_eq!(
        GraphError::from(TensorError::MalformedBuffer),
        GraphError::TensorError(TensorError::MalformedBuffer)
    );
}

#[test]
fn graph_over_one_kind_of_operation() {
    let mut g: Graph<i64, Coeff<i64>> = Graph::new();
    let x = g.allocate(tensor(&[2], &[1, 2]), "x".to_string());
    let y = g.call(Coeff::new(4), &[x]).unwrap();
    assert_eq!(g.get(y).unwrap().blob(), &[4, 8]);
    g.backward_all(y, Box::new(Fixed { loss: tensor(&[1], &[0]), grad: tensor(&[2], &[1, 2]) }), None)
        .unwrap();
    assert_eq!(g.get_grad(x).unwrap().blob(), &[4, 8]);
}

#[test]
fn masked_elements_pass_no_gradient() {
    let mut g: Graph<i64> = Graph::new();
    let x = g.allocate(tensor(&[2, 2], &[1, 2, 3, 4]), "x".to_string());
    let mask = Tensor::raw(&[2], vec![true, false]).unwrap();
    let y = g.call(op(Mask::new(mask, 0)), &[x]).unwrap();
    assert_eq!(value_of(&g, y), vec![0, 2, 0, 4]);
    let loss = Fixed { loss: tensor(&[1], &[0]), grad: tensor(&[2, 2], &[1, 1, 1, 1]) };
    g.backward_all(y, Box::new(loss), None).unwrap();
    assert_eq!(grad_of(&g, x), vec![0, 1, 0, 1]);
}

#[test]
fn broadcast_sum_reduces_the_gradient_of_the_smaller_input() {
    let mut g: Graph<i64> = Graph::new();
    let w = g.allocate(tensor(&[2, 3], &[1, 2, 3, 4, 5, 6]), "w".to_string());
    let bias = g.allocate(tensor(&[3], &[10, 20, 30]), "bias".to_string());
    let y = g.call(op(Add::new()), &[w, bias]).unwrap();
    assert_eq!(value_of(&g, y), vec![11, 22, 33, 14, 25, 36]);
    let loss = Fixed { loss: tensor(&[1], &[0]), grad: tensor(&[2, 3], &[1, 2, 3, 4, 5, 6]) };
    g.backward_all(y, Box::new(loss), None).unwrap();
    assert_eq!(grad_of(&g, w), vec![1, 2, 3, 4, 5, 6]);
    assert_eq!(g.get_grad(bias).unwrap().shape(), &[3]);
    assert_eq!(grad_of(&g, bias), vec![5, 7, 9]);
}

#[test]
fn embed_copies_rows_and_records_nothing() {
    let mut g: Graph<i64> = Graph::new();
    let table = g.allocate(tensor(&[3, 2], &[10, 11, 20, 21, 30, 31]), "table".to_string());
    let out = g.allocate(tensor(&[2, 2], &[0, 0, 0, 0]), "out".to_string());
    let index = Tensor::raw(&[2], vec![2usize, 0]).unwrap();
    g.embed(out, table, &index).unwrap();
    assert_eq!(g.get(out).unwrap().shape(), &[2, 2]);
    assert_eq!(value_of(&g, out), vec![30, 31, 10, 11]);
    g.load(table, &tensor(&[3, 2], &[0, 0, 0, 0, 0, 0])).unwrap();
    g.forward(false).unwrap();
    assert_eq!(value_of(&g, out), vec![30, 31, 10, 11]);
    let y = g.call(op(Coeff::new(2)), &[out]).unwrap();
    let loss = Fixed { loss: tensor(&[1], &[0]), grad: tensor(&[2, 2], &[1, 1, 1, 1]) };
    g.backward_all(y, Box::new(loss), None).unwrap();
    assert_eq!(grad_of(&g, table), vec![0; 6]);
}

#[test]
fn embed_reports_errors_in_order() {
    let mut g: Graph<i64> = Graph::new();
    let table = g.allocate(tensor(&[3, 2], &[10, 11, 20, 21, 30, 31]), "table".to_string());
    let out = g.allocate(tensor(&[1], &[0]), "out".to_string());
    let good = Tensor::raw(&[1], vec![1usize]).unwrap();
    let bad = Tensor::raw(&[1], vec![3usize]).unwrap();
    assert_eq!(g.embed(9, 8, &bad).unwrap_err(), GraphError::TensorNotFound(8));
    assert_eq!(
        g.embed(9, table, &bad).unwrap_err(),
        GraphError::TensorError(TensorError::IndexOutOfRange)
    );
    assert_eq!(g.embed(9, table, &good).unwrap_err(), GraphError::TensorNotFound(9));
    assert_eq!(value_of(&g, out), vec![0]);
}

#[test]
fn select_lists_the_named_ids_in_ascending_order() {
    let (g, _x, _a, _b, _c) = chain();
    let set: HashSet<TensorId> = [3, 0, 17, 2].into_iter().collect();
    assert_eq!(g.select(&set), vec![0, 2, 3]);
    assert_eq!(g.select(&HashSet::new()), Vec::<TensorId>::new());
}

#[test]
fn optimize_hands_parameters_over_in_ascending_order() {
    let mut g: Graph<i64> = Graph::new();
    let p = g.allocate(tensor(&[2], &[100, 200]), "p".to_string());
    let q = g.allocate(tensor(&[1], &[300]), "q".to_string());
    let r = g.allocate(tensor(&[1], &[400]), "r".to_string());
    g.load_grad(p, &tensor(&[2], &[1, 2])).unwrap();
    g.load_grad(q, &tensor(&[1], &[3])).unwrap();
    g.load_grad(r, &tensor(&[1], &[4])).unwrap();
    let set: HashSet<TensorId> = [r, p, 12].into_iter().collect();
    let mut opt = Descent { seen: Vec::new(), fail: false };
    g.optimize(&mut opt, &set, 10).unwrap();
    assert_eq!(opt.seen, vec![100, 400]);
    assert_eq!(value_of(&g, p), vec![90, 180]);
    assert_eq!(value_of(&g, q), vec![300]);
    assert_eq!(value_of(&g, r), vec![360]);
    assert_eq!(grad_of(&g, p), vec![1, 2]);
    g.optimize(&mut opt, &set, 1).unwrap();
    assert_eq!(opt.seen, vec![100, 400, 90, 360]);
    assert_eq!(value_of(&g, p), vec![89, 178]);
}

#[test]
fn optimize_keeps_what_a_failing_optimizer_did() {
    let mut g: Graph<i64> = Graph::new();
    let p = g.allocate(tensor(&[1], &[100]), "p".to_string());
    g.load_grad(p, &tensor(&[1], &[1])).unwrap();
    let set: HashSet<TensorId> = [p].into_iter().collect();
    let mut opt = Descent { seen: Vec::new(), fail: true };
    assert_eq!(
        g.optimize(&mut opt, &set, 10).unwrap_err(),
        GraphError::TensorError(TensorError::ShapeMismatch)
    );
    assert_eq!(value_of(&g, p), vec![90]);
}
