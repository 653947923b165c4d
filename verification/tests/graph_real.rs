use femto_gpt::funcs::{Add, Coeff, Function, Identity};
use femto_gpt::graph::{Graph, TensorId};
use femto_gpt::optimizer::Optimizer;
use femto_gpt::scalar::Scalar;
use femto_gpt::tensor::{Tensor, TensorError};
use std::collections::HashSet;

#[derive(Clone, Copy, Debug, PartialEq)]
struct Real(f32);

impl Scalar for Real {
    fn zero() -> Self {
        Real(0.0)
    }

    fn one() -> Self {
        Real(1.0)
    }

    fn plus(self, rhs: Self) -> Self {
        Real(self.0 + rhs.0)
    }

    fn times(self, rhs: Self) -> Self {
        Real(self.0 * rhs.0)
    }

    fn over_count(self, n: usize) -> Self {
        Real(self.0 / n as f32)
    }

    fn from_word(word: u32) -> Self {
        Real((word >> 8) as f32 / 8388608.0 - 1.0)
    }
}

/// Gradient descent.
struct Descent;

impl Optimizer<Real> for Descent {
    fn step(
        &mut self,
        params: &mut [Tensor<Real>],
        grads: &[&Tensor<Real>],
        learning_rate: Real,
    ) -> Result<(), TensorError> {
        for (p, g) in params.iter_mut().zip(grads.iter()) {
            *p = p.plus(&g.scale(Real(-learning_rate.0)))?;
        }
        Ok(())
    }
}

fn tensor(shape: &[usize], blob: &[f32]) -> Tensor<Real> {
    Tensor::raw(shape, blob.iter().map(|v| Real(*v)).collect()).unwrap()
}

fn op<F: Function<Real> + 'static>(f: F) -> Box<dyn Function<Real>> {
    Box::new(f)
}

fn value_of(g: &Graph<Real>, id: TensorId) -> Vec<f32> {
    g.get(id).unwrap().blob().iter().map(|v| v.0).collect()
}

fn grad_of(g: &Graph<Real>, id: TensorId) -> Vec<f32> {
    g.get_grad(id).unwrap().blob().iter().map(|v| v.0).collect()
}

#[test]
fn sum_of_sixty_four_and_thirty_six() {
    let mut g: Graph<Real> = Graph::new();
    let a = g.allocate(tensor(&[1, 1], &[64.0]), "a".to_string());
    let b = g.allocate(tensor(&[1, 1], &[36.0]), "b".to_string());
    let c = g.call(op(Add::new()), &[a, b]).unwrap();
    g.forward(false).unwrap();
    assert_eq!(g.get(c).unwrap().shape(), &[1, 1]);
    assert_eq!(value_of(&g, c), vec![100.0]);
    let loss = g.backward_all(c, Box::new(Identity), None).unwrap();
    assert_eq!(loss, Real(100.0));
    assert_eq!(g.get_grad(a).unwrap().shape(), &[1, 1]);
    assert_eq!(grad_of(&g, a), vec![1.0]);
    assert_eq!(g.get_grad(b).unwrap().shape(), &[1, 1]);
    assert_eq!(grad_of(&g, b), vec![1.0]);
}

#[test]
fn gradient_at_the_head_of_a_diamond_is_the_sum_over_both_paths() {
    let mut g: Graph<Real> = Graph::new();
    let x = g.allocate(tensor(&[1, 1], &[3.0]), "x".to_string());
    let a = g.call(op(Coeff::new(Real(2.0))), &[x]).unwrap();
    let b = g.call(op(Coeff::new(Real(0.5))), &[x]).unwrap();
    let c = g.call(op(Add::new()), &[a, b]).unwrap();
    assert_eq!(value_of(&g, c), vec![7.5]);
    g.backward_all(c, Box::new(Identity), None).unwrap();
    assert_eq!(grad_of(&g, a), vec![1.0]);
    assert_eq!(grad_of(&g, b), vec![1.0]);
    assert_eq!(grad_of(&g, x), vec![2.5]);
}

#[test]
fn seed_gradient_is_divided_by_the_number_of_loss_elements() {
    let mut g: Graph<Real> = Graph::new();
    let x = g.allocate(tensor(&[2, 2], &[1.0, 2.0, 3.0, 6.0]), "x".to_string());
    let y = g.call(op(Coeff::new(Real(2.0))), &[x]).unwrap();
    let loss = g.backward_all(y, Box::new(Identity), None).unwrap();
    assert_eq!(loss, Real(6.0));
    assert_eq!(grad_of(&g, y), vec![0.25, 0.25, 0.25, 0.25]);
    assert_eq!(grad_of(&g, x), vec![0.5, 0.5, 0.5, 0.5]);
}

#[test]
fn forward_twice_gives_the_same_bits() {
    let mut g: Graph<Real> = Graph::new();
    let x = g.allocate(tensor(&[3], &[0.1, 0.2, 0.3]), "x".to_string());
    let y = g.allocate(tensor(&[3], &[1e-8, -7.25, 3.0e10]), "y".to_string());
    let s = g.call(op(Add::new()), &[x, y]).unwrap();
    let t = g.call(op(Coeff::new(Real(0.3))), &[s]).unwrap();
    g.forward(false).unwrap();
    let first: Vec<u32> = value_of(&g, t).iter().map(|v| v.to_bits()).collect();
    g.forward(false).unwrap();
    let second: Vec<u32> = value_of(&g, t).iter().map(|v| v.to_bits()).collect();
    assert_eq!(first, second);
}

#[test]
fn descent_moves_parameters_against_their_gradients() {
    let mut g: Graph<Real> = Graph::new();
    let w = g.allocate(tensor(&[2], &[1.0, -1.0]), "w".to_string());
    let y = g.call(op(Coeff::new(Real(4.0))), &[w]).unwrap();
    g.backward_all(y, Box::new(Identity), None).unwrap();
    assert_eq!(grad_of(&g, w), vec![2.0, 2.0]);
    let params: HashSet<TensorId> = [w].into_iter().collect();
    g.optimize(&mut Descent, &params, Real(0.25)).unwrap();
    assert_eq!(value_of(&g, w), vec![0.5, -1.5]);
    assert_eq!(value_of(&g, y), vec![4.0, -4.0]);
    g.forward(true).unwrap();
    assert_eq!(value_of(&g, y), vec![2.0, -6.0]);
}
