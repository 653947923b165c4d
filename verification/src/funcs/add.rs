//! The sum of two tensors.

use super::Function;
use crate::scalar::Scalar;
use crate::tensor::{Tensor, TensorError, TensorModel};
use vstd::prelude::*;

verus! {

/// Adds its first two inputs, broadcasting the one of lower rank.
#[derive(Debug, Clone, Copy)]
pub struct Add;

impl Add {
    pub fn new() -> (r: Add)
        ensures
            r == Add,
    {
        Add
    }
}

impl<V: Scalar> Function<V> for Add {
    open spec fn run_spec(&self, inps: Seq<TensorModel<V>>, training: bool) -> Result<
        TensorModel<V>,
        TensorError,
    > {
        if inps.len() < 2 {
            Err(TensorError::IndexOutOfRange)
        } else {
            inps[0].plus(inps[1])
        }
    }

    /// The output's gradient reaches both inputs unchanged.
    open spec fn grad_spec(&self, inps: Seq<TensorModel<V>>, out_grad: TensorModel<V>) -> Result<
        Seq<TensorModel<V>>,
        TensorError,
    > {
        Ok(seq![out_grad, out_grad])
    }

    open spec fn deterministic(&self, training: bool) -> bool {
        true
    }

    fn run(&self, inps: &[&Tensor<V>], training: bool) -> (r: Result<Tensor<V>, TensorError>) {
        if inps.len() < 2 {
            return Err(TensorError::IndexOutOfRange);
        }
        inps[0].plus(inps[1])
    }

    fn grad(&self, inps: &[&Tensor<V>], out_grad: &Tensor<V>) -> (r: Result<
        Vec<Tensor<V>>,
        TensorError,
    >) {
        let mut out: Vec<Tensor<V>> = Vec::new();
        out.push(out_grad.clone());
        out.push(out_grad.clone());
        proof {
            assert(crate::tensor::owned_models(out@) =~= seq![out_grad@, out_grad@]);
        }
        Ok(out)
    }
}

} // verus!
