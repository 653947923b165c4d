//! The loss that is the output itself.

use super::Loss;
use crate::scalar::Scalar;
use crate::tensor::{Tensor, TensorError, TensorModel};
use vstd::prelude::*;

verus! {

/// Takes the output for the loss tensor: the loss is the mean of the
/// output, and its gradient is one at every element.
#[derive(Debug, Clone, Copy)]
pub struct Identity;

impl<V: Scalar> Loss<V> for Identity {
    open spec fn run_spec(&self, output: TensorModel<V>) -> Result<
        (TensorModel<V>, TensorModel<V>),
        TensorError,
    > {
        Ok((output, output.ones_like()))
    }

    fn run(&self, output: &Tensor<V>) -> (r: Result<(Tensor<V>, Tensor<V>), TensorError>) {
        Ok((output.clone(), output.ones_like()))
    }
}

} // verus!
