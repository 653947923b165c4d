//! Replacement of the elements under a mask by a fixed value.

use super::Function;
use crate::scalar::Scalar;
use crate::tensor::{Tensor, TensorError, TensorModel};
use vstd::prelude::*;

verus! {

/// Replaces the elements of its first input that lie under the mask by a
/// value; no gradient flows back through a replaced element.
#[derive(Debug)]
pub struct Mask<V> {
    pub mask: Tensor<bool>,
    pub mask_rev: Tensor<V>,
    pub value: V,
}

impl<V: Scalar> Mask<V> {
    pub fn new(mask: Tensor<bool>, value: V) -> (r: Mask<V>)
        ensures
            r.mask@ == mask@,
            r.mask_rev@ == TensorModel::<V>::indicator(mask@, false),
            r.value == value,
    {
        let mask_rev = Tensor::indicator(&mask, false);
        Mask { mask, mask_rev, value }
    }
}

impl<V: Copy> Clone for Mask<V> {
    fn clone(&self) -> (r: Self)
        ensures
            r.mask@ == self.mask@,
            r.mask_rev@ == self.mask_rev@,
            r.value == self.value,
    {
        Mask { mask: self.mask.clone(), mask_rev: self.mask_rev.clone(), value: self.value }
    }
}

impl<V: Scalar> Function<V> for Mask<V> {
    open spec fn run_spec(&self, inps: Seq<TensorModel<V>>, training: bool) -> Result<
        TensorModel<V>,
        TensorError,
    > {
        if inps.len() < 1 {
            Err(TensorError::IndexOutOfRange)
        } else {
            inps[0].masked_fill(self.mask@, self.value)
        }
    }

    /// The output's gradient multiplied by one where the mask is clear and
    /// by zero where it is set.
    open spec fn grad_spec(&self, inps: Seq<TensorModel<V>>, out_grad: TensorModel<V>) -> Result<
        Seq<TensorModel<V>>,
        TensorError,
    > {
        match out_grad.times(self.mask_rev@) {
            Ok(g) => Ok(seq![g]),
            Err(e) => Err(e),
        }
    }

    open spec fn deterministic(&self, training: bool) -> bool {
        true
    }

    fn run(&self, inps: &[&Tensor<V>], training: bool) -> (r: Result<Tensor<V>, TensorError>) {
        if inps.len() < 1 {
            return Err(TensorError::IndexOutOfRange);
        }
        inps[0].masked_fill(&self.mask, self.value)
    }

    fn grad(&self, inps: &[&Tensor<V>], out_grad: &Tensor<V>) -> (r: Result<
        Vec<Tensor<V>>,
        TensorError,
    >) {
        match out_grad.times(&self.mask_rev) {
            Ok(g) => {
                let mut out: Vec<Tensor<V>> = Vec::new();
                out.push(g);
                proof {
                    assert(crate::tensor::owned_models(out@) =~= seq![g@]);
                }
                Ok(out)
            },
            Err(e) => Err(e),
        }
    }
}

} // verus!
