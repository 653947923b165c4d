//! Optimizers: what turns parameters and their gradients into new
//! parameters.

use crate::tensor::{models, owned_models};
use crate::scalar::Scalar;
use crate::tensor::{Tensor, TensorError, TensorModel};
use vstd::prelude::*;

verus! {

/// One step of an optimizer. The parameters and the gradients correspond
/// index for index, and the parameters are changed in place. An optimizer
/// may keep a state of its own from step to step; given that state, the
/// new parameters are a function of the old ones, the gradients and the
/// learning rate.
///
/// An implementation outside this crate keeps the default specification
/// function, which says that much and no more.
pub trait Optimizer<V: Scalar> {
    /// The parameters after the step, and whether the step succeeded.
    open spec fn step_spec(
        &self,
        params: Seq<TensorModel<V>>,
        grads: Seq<TensorModel<V>>,
        learning_rate: V,
    ) -> (Seq<TensorModel<V>>, Result<(), TensorError>) {
        (arbitrary::<
            spec_fn(&Self, Seq<TensorModel<V>>, Seq<TensorModel<V>>, V) -> (
                Seq<TensorModel<V>>,
                Result<(), TensorError>,
            ),
        >())(self, params, grads, learning_rate)
    }

    fn step(&mut self, params: &mut [Tensor<V>], grads: &[&Tensor<V>], learning_rate: V) -> (r:
        Result<(), TensorError>)
        requires
            old(params)@.len() == grads@.len(),
        ensures
            (owned_models(final(params)@), r) == old(self).step_spec(
                owned_models(old(params)@),
                models(grads@),
                learning_rate,
            ),
    ;
}

} // verus!
