//! Multiplication by a fixed coefficient.

use super::Function;
use crate::scalar::Scalar;
use crate::tensor::{Tensor, TensorError, TensorModel};
use vstd::prelude::*;

verus! {

/// Multiplies every element of its first input by a coefficient.
#[derive(Debug)]
pub struct Coeff<V> {
    pub coeff: V,
}

impl<V: Scalar> Coeff<V> {
    pub fn new(coeff: V) -> (r: Coeff<V>)
        ensures
            r.coeff == coeff,
    {
        Coeff { coeff }
    }
}

impl<V: Copy> Clone for Coeff<V> {
    fn clone(&self) -> (r: Self)
        ensures
            r.coeff == self.coeff,
    {
        Coeff { coeff: self.coeff }
    }
}

impl<V: Scalar> Function<V> for Coeff<V> {
    open spec fn run_spec(&self, inps: Seq<TensorModel<V>>, training: bool) -> Result<
        TensorModel<V>,
        TensorError,
    > {
        if inps.len() < 1 {
            Err(TensorError::IndexOutOfRange)
        } else {
            Ok(inps[0].scale(self.coeff))
        }
    }

    /// The output's gradient multiplied by the coefficient.
    open spec fn grad_spec(&self, inps: Seq<TensorModel<V>>, out_grad: TensorModel<V>) -> Result<
        Seq<TensorModel<V>>,
        TensorError,
    > {
        Ok(seq![out_grad.scale(self.coeff)])
    }

    open spec fn deterministic(&self, training: bool) -> bool {
        true
    }

    fn run(&self, inps: &[&Tensor<V>], training: bool) -> (r: Result<Tensor<V>, TensorError>) {
        if inps.len() < 1 {
            return Err(TensorError::IndexOutOfRange);
        }
        Ok(inps[0].scale(self.coeff))
    }

    fn grad(&self, inps: &[&Tensor<V>], out_grad: &Tensor<V>) -> (r: Result<
        Vec<Tensor<V>>,
        TensorError,
    >) {
        let mut out: Vec<Tensor<V>> = Vec::new();
        out.push(out_grad.scale(self.coeff));
        proof {
            assert(crate::tensor::owned_models(out@) =~= seq![out_grad@.scale(self.coeff)]);
        }
        Ok(out)
    }
}

} // verus!
