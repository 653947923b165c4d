//! The derivative rules of the operations, held against their forward
//! rules.
//!
//! Each operation of this crate changes an output element by the change
//! of the input element times what its derivative rule says. This is
//! exact where sums and products of elements obey the laws named in
//! `ring_like`; with rounding arithmetic it holds up to rounding.

use super::{Add, Coeff, Function, Mask};
use crate::scalar::Scalar;
use crate::tensor::TensorModel;
use vstd::prelude::*;

verus! {

/// The laws of sums and products that the derivative rules rest on.
pub open spec fn ring_like<V: Scalar>() -> bool {
    &&& forall|a: V, b: V, c: V| #[trigger]
        a.plus_spec(b).plus_spec(c) == a.plus_spec(#[trigger] b.plus_spec(c))
    &&& forall|a: V, b: V| #[trigger] a.plus_spec(b) == b.plus_spec(a)
    &&& forall|a: V| #[trigger] a.plus_spec(V::zero_spec()) == a
    &&& forall|a: V, b: V, c: V| #[trigger]
        a.plus_spec(b).times_spec(c) == a.times_spec(c).plus_spec(b.times_spec(c))
    &&& forall|a: V| #[trigger] V::one_spec().times_spec(a) == a
    &&& forall|a: V| #[trigger] a.times_spec(V::one_spec()) == a
    &&& forall|a: V| #[trigger] a.times_spec(V::zero_spec()) == V::zero_spec()
}

/// The tensor with `eps` added to its element `j`.
pub open spec fn bumped<V: Scalar>(x: TensorModel<V>, j: int, eps: V) -> TensorModel<V> {
    TensorModel { shape: x.shape, blob: x.blob.update(j, x.blob[j].plus_spec(eps)) }
}

/// The tensor in the shape of `x` that is one at `j` and zero elsewhere:
/// the gradient that singles out the output element `j`.
pub open spec fn one_hot<V: Scalar>(x: TensorModel<V>, j: int) -> TensorModel<V> {
    TensorModel {
        shape: x.shape,
        blob: Seq::new(
            x.blob.len(),
            |i: int|
                if i == j {
                    V::one_spec()
                } else {
                    V::zero_spec()
                },
        ),
    }
}

/// Whether `moved` is `y` with its element `j` changed by `eps` times the
/// element `j` of `slope`, and nothing else changed.
pub open spec fn moves_by<V: Scalar>(
    y: TensorModel<V>,
    moved: TensorModel<V>,
    j: int,
    eps: V,
    slope: TensorModel<V>,
) -> bool {
    &&& moved.shape == y.shape
    &&& moved.blob.len() == y.blob.len()
    &&& 0 <= j < y.blob.len()
    &&& moved.blob[j] == y.blob[j].plus_spec(eps.times_spec(slope.blob[j]))
    &&& forall|i: int| 0 <= i < y.blob.len() && i != j ==> moved.blob[i] == y.blob[i]
}

/// Scaling: an input element that grows by `eps` moves its output element
/// by `eps` times the gradient that the derivative rule gives for it.
pub proof fn lemma_coeff_difference<V: Scalar>(f: Coeff<V>, x: TensorModel<V>, j: int, eps: V)
    requires
        ring_like::<V>(),
        0 <= j < x.blob.len(),
    ensures
        f.run_spec(seq![x], false) is Ok,
        f.run_spec(seq![bumped(x, j, eps)], false) is Ok,
        f.grad_spec(seq![x], one_hot(x, j)) is Ok,
        moves_by(
            f.run_spec(seq![x], false)->Ok_0,
            f.run_spec(seq![bumped(x, j, eps)], false)->Ok_0,
            j,
            eps,
            f.grad_spec(seq![x], one_hot(x, j))->Ok_0[0],
        ),
{
    let slope = f.grad_spec(seq![x], one_hot(x, j))->Ok_0[0];
    assert(slope.blob[j] == V::one_spec().times_spec(f.coeff));
    assert(x.blob[j].plus_spec(eps).times_spec(f.coeff) == x.blob[j].times_spec(
        f.coeff,
    ).plus_spec(eps.times_spec(f.coeff)));
}

/// Addition of tensors of one shape: an element of either input that
/// grows by `eps` moves its output element by `eps` times the gradient
/// that the derivative rule gives for it.
pub proof fn lemma_add_difference<V: Scalar>(
    a: TensorModel<V>,
    b: TensorModel<V>,
    first: bool,
    j: int,
    eps: V,
)
    requires
        ring_like::<V>(),
        a.shape == b.shape,
        a.blob.len() == b.blob.len(),
        0 <= j < a.blob.len(),
    ensures
        ({
            let before = seq![a, b];
            let after = if first {
                seq![bumped(a, j, eps), b]
            } else {
                seq![a, bumped(b, j, eps)]
            };
            let which: int = if first {
                0
            } else {
                1
            };
            &&& Function::<V>::run_spec(&Add, before, false) is Ok
            &&& Function::<V>::run_spec(&Add, after, false) is Ok
            &&& Function::<V>::grad_spec(&Add, before, one_hot(a, j)) is Ok
            &&& moves_by(
                Function::<V>::run_spec(&Add, before, false)->Ok_0,
                Function::<V>::run_spec(&Add, after, false)->Ok_0,
                j,
                eps,
                Function::<V>::grad_spec(&Add, before, one_hot(a, j))->Ok_0[which],
            )
        }),
{
    let n = a.blob.len();
    assert(a.shape.skip(0) =~= a.shape);
    assert(crate::shape::is_suffix(b.shape, a.shape));
    assert forall|i: int| 0 <= i < n implies #[trigger] (i % (n as int)) == i by {
        vstd::arithmetic::div_mod::lemma_small_mod(i as nat, n);
    }
    let x = a.blob[j];
    let y = b.blob[j];
    assert(eps.times_spec(V::one_spec()) == eps);
    if first {
        assert(x.plus_spec(eps).plus_spec(y) == x.plus_spec(y).plus_spec(eps)) by {
            assert(x.plus_spec(eps).plus_spec(y) == x.plus_spec(eps.plus_spec(y)));
            assert(eps.plus_spec(y) == y.plus_spec(eps));
            assert(x.plus_spec(y).plus_spec(eps) == x.plus_spec(y.plus_spec(eps)));
        }
    } else {
        assert(x.plus_spec(y.plus_spec(eps)) == x.plus_spec(y).plus_spec(eps));
    }
}

/// Masking with a mask in the shape of the input: an input element that
/// grows by `eps` moves its output element by `eps` times the gradient
/// that the derivative rule gives for it, which is nothing under the
/// mask.
pub proof fn lemma_mask_difference<V: Scalar>(f: Mask<V>, x: TensorModel<V>, j: int, eps: V)
    requires
        ring_like::<V>(),
        f.mask@.shape == x.shape,
        f.mask@.blob.len() == x.blob.len(),
        x.blob.len() == crate::shape::product(x.shape),
        f.mask_rev@ == TensorModel::<V>::indicator(f.mask@, false),
        0 <= j < x.blob.len(),
    ensures
        f.run_spec(seq![x], false) is Ok,
        f.run_spec(seq![bumped(x, j, eps)], false) is Ok,
        f.grad_spec(seq![x], one_hot(x, j)) is Ok,
        moves_by(
            f.run_spec(seq![x], false)->Ok_0,
            f.run_spec(seq![bumped(x, j, eps)], false)->Ok_0,
            j,
            eps,
            f.grad_spec(seq![x], one_hot(x, j))->Ok_0[0],
        ),
{
    let n = x.blob.len();
    assert(x.shape.skip(0) =~= x.shape);
    assert(crate::shape::is_suffix(f.mask_rev@.shape, x.shape));
    assert forall|i: int| 0 <= i < n implies #[trigger] (i % (n as int)) == i by {
        vstd::arithmetic::div_mod::lemma_small_mod(i as nat, n);
    }
    let slope = f.grad_spec(seq![x], one_hot(x, j))->Ok_0[0];
    if f.mask@.blob[j] {
        assert(slope.blob[j] == V::one_spec().times_spec(V::zero_spec()));
        assert(eps.times_spec(V::zero_spec()) == V::zero_spec());
    } else {
        assert(slope.blob[j] == V::one_spec().times_spec(V::one_spec()));
        assert(eps.times_spec(V::one_spec()) == eps);
    }
}

/// The integer elements of this crate obey the laws: for them the
/// derivative rules are exact.
pub proof fn lemma_integers_ring_like()
    ensures
        ring_like::<i64>(),
{
    assert forall|a: i64, b: i64, c: i64| #[trigger]
        a.plus_spec(b).plus_spec(c) == a.plus_spec(#[trigger] b.plus_spec(c)) by {
        crate::scalar::lemma_plus_wraps(a, b);
        crate::scalar::lemma_plus_wraps(a.plus_spec(b), c);
        crate::scalar::lemma_plus_wraps(b, c);
        crate::scalar::lemma_plus_wraps(a, b.plus_spec(c));
        crate::scalar::lemma_wrapped_sum(a + b, c as int);
        crate::scalar::lemma_wrapped_sum(b + c, a as int);
    }
    assert forall|a: i64, b: i64, c: i64| #[trigger]
        a.plus_spec(b).times_spec(c) == a.times_spec(c).plus_spec(b.times_spec(c)) by {
        crate::scalar::lemma_plus_wraps(a, b);
        crate::scalar::lemma_plus_wraps(a.times_spec(c), b.times_spec(c));
        crate::scalar::lemma_wrapped_product(a + b, c as int);
        crate::scalar::lemma_wrapped_sum(a * c, crate::scalar::wrapped(b * c) as int);
        crate::scalar::lemma_wrapped_sum(b * c, a * c);
        assert((a + b) * c == a * c + b * c) by (nonlinear_arith);
    }
    assert forall|a: i64| #[trigger] <i64 as Scalar>::one_spec().times_spec(a) == a by {
        crate::scalar::lemma_wrapped_fixed(a);
        assert(1 * a == a as int);
    }
    assert forall|a: i64| #[trigger] a.times_spec(<i64 as Scalar>::one_spec()) == a by {
        crate::scalar::lemma_wrapped_fixed(a);
        assert(a * 1 == a as int);
    }
    assert forall|a: i64| #[trigger]
        a.times_spec(<i64 as Scalar>::zero_spec()) == <i64 as Scalar>::zero_spec() by {
        crate::scalar::lemma_wrapped_fixed(0);
        assert(a * 0 == 0);
    }
}

} // verus!
