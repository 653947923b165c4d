//! Operations: what the engine records, replays and differentiates.

use crate::scalar::Scalar;
use crate::tensor::{models, outcomes, Tensor, TensorError, TensorModel};
use vstd::prelude::*;

pub mod add;
pub mod coeff;
pub mod identity;
pub mod laws;
pub mod mask;

pub use add::Add;
pub use coeff::Coeff;
pub use identity::Identity;
pub use mask::Mask;

verus! {

/// The model of what a loss returns.
pub open spec fn loss_outcome<V>(r: Result<(Tensor<V>, Tensor<V>), TensorError>) -> Result<
    (TensorModel<V>, TensorModel<V>),
    TensorError,
> {
    match r {
        Ok(pair) => Ok((pair.0@, pair.1@)),
        Err(e) => Err(e),
    }
}

/// One operation: a forward rule and the rule for its local derivative.
///
/// An operation holds its configuration and nothing that changes between
/// calls. Its derivative rule is a function of its arguments. So is its
/// forward rule wherever `deterministic` holds; an operation that draws
/// random numbers while training says so by leaving training mode out of
/// `deterministic`, and then nothing is stated about what `run` returns
/// in that mode.
///
/// An implementation outside this crate keeps the default specification
/// functions: they say of its rules that each is some function of the
/// operation and its arguments, and of its forward rule that it is
/// deterministic in inference mode.
pub trait Function<V: Scalar> {
    /// The value of the forward rule.
    open spec fn run_spec(&self, inps: Seq<TensorModel<V>>, training: bool) -> Result<
        TensorModel<V>,
        TensorError,
    > {
        (arbitrary::<
            spec_fn(&Self, Seq<TensorModel<V>>, bool) -> Result<TensorModel<V>, TensorError>,
        >())(self, inps, training)
    }

    /// The gradients with respect to the inputs, one for each input and in
    /// their order, given the gradient with respect to the output.
    open spec fn grad_spec(&self, inps: Seq<TensorModel<V>>, out_grad: TensorModel<V>) -> Result<
        Seq<TensorModel<V>>,
        TensorError,
    > {
        (arbitrary::<
            spec_fn(&Self, Seq<TensorModel<V>>, TensorModel<V>) -> Result<
                Seq<TensorModel<V>>,
                TensorError,
            >,
        >())(self, inps, out_grad)
    }

    /// Whether the forward rule is a function of its inputs in this mode.
    open spec fn deterministic(&self, training: bool) -> bool {
        !training
    }

    fn run(&self, inps: &[&Tensor<V>], training: bool) -> (r: Result<Tensor<V>, TensorError>)
        ensures
            self.deterministic(training) ==> crate::tensor::outcome(r) == self.run_spec(
                models(inps@),
                training,
            ),
    ;

    fn grad(&self, inps: &[&Tensor<V>], out_grad: &Tensor<V>) -> (r: Result<
        Vec<Tensor<V>>,
        TensorError,
    >)
        ensures
            outcomes(r) == self.grad_spec(models(inps@), out_grad@),
    ;
}

/// A boxed operation is the operation in the box: a graph over boxed
/// operations holds operations of every kind.
impl<V: Scalar> Function<V> for Box<dyn Function<V>> {
    open spec fn run_spec(&self, inps: Seq<TensorModel<V>>, training: bool) -> Result<
        TensorModel<V>,
        TensorError,
    > {
        (**self).run_spec(inps, training)
    }

    open spec fn grad_spec(&self, inps: Seq<TensorModel<V>>, out_grad: TensorModel<V>) -> Result<
        Seq<TensorModel<V>>,
        TensorError,
    > {
        (**self).grad_spec(inps, out_grad)
    }

    open spec fn deterministic(&self, training: bool) -> bool {
        (**self).deterministic(training)
    }

    fn run(&self, inps: &[&Tensor<V>], training: bool) -> (r: Result<Tensor<V>, TensorError>) {
        (**self).run(inps, training)
    }

    fn grad(&self, inps: &[&Tensor<V>], out_grad: &Tensor<V>) -> (r: Result<
        Vec<Tensor<V>>,
        TensorError,
    >) {
        (**self).grad(inps, out_grad)
    }
}

/// A loss: from the output of a graph to a loss tensor, whose mean is the
/// value of the loss, and the gradient of the loss with respect to the
/// output, which is expected in the output's shape.
pub trait Loss<V: Scalar> {
    /// The loss tensor and the gradient, in this order. By default it is
    /// some function of the loss and the output.
    open spec fn run_spec(&self, output: TensorModel<V>) -> Result<
        (TensorModel<V>, TensorModel<V>),
        TensorError,
    > {
        (arbitrary::<
            spec_fn(&Self, TensorModel<V>) -> Result<
                (TensorModel<V>, TensorModel<V>),
                TensorError,
            >,
        >())(self, output)
    }

    fn run(&self, output: &Tensor<V>) -> (r: Result<(Tensor<V>, Tensor<V>), TensorError>)
        ensures
            loss_outcome(r) == self.run_spec(output@),
    ;
}

} // verus!
