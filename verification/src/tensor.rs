//! Dense tensors: a shape and a row-major buffer of elements.

use crate::scalar::Scalar;
use crate::shape::{
    checked_product, copy_from, copy_of, ends_with, is_suffix, lemma_product_concat,
    lemma_product_split, product,
};
use vstd::prelude::*;

verus! {

/// What can go wrong inside a tensor operation.
#[derive(Debug, Clone, Copy, PartialEq, Eq, Structural)]
pub enum TensorError {
    /// The shapes of the operands do not fit the operation.
    ShapeMismatch,
    /// Neither operand's shape ends with the other's.
    InvalidBroadcast,
    /// An index or a rank lies outside the tensor.
    IndexOutOfRange,
    /// A buffer does not hold as many elements as its shape asks for.
    MalformedBuffer,
}

/// The mathematical content of a tensor.
pub struct TensorModel<V> {
    pub shape: Seq<usize>,
    pub blob: Seq<V>,
}

/// The model of a fallible tensor result.
pub open spec fn outcome<V>(r: Result<Tensor<V>, TensorError>) -> Result<
    TensorModel<V>,
    TensorError,
> {
    match r {
        Ok(t) => Ok(t@),
        Err(e) => Err(e),
    }
}

/// A dense tensor. Its buffer always holds exactly as many elements as its
/// shape describes.
#[derive(Debug)]
pub struct Tensor<V> {
    shape: Vec<usize>,
    blob: Vec<V>,
}

impl<V> View for Tensor<V> {
    type V = TensorModel<V>;

    closed spec fn view(&self) -> TensorModel<V> {
        TensorModel { shape: self.shape@, blob: self.blob@ }
    }
}

/// The models of a list of borrowed tensors.
pub open spec fn models<V>(ts: Seq<&Tensor<V>>) -> Seq<TensorModel<V>> {
    Seq::new(ts.len(), |i: int| ts[i]@)
}

/// The models of a list of tensors.
pub open spec fn owned_models<V>(ts: Seq<Tensor<V>>) -> Seq<TensorModel<V>> {
    Seq::new(ts.len(), |i: int| ts[i]@)
}

/// The model of a fallible list of tensors.
pub open spec fn outcomes<V>(r: Result<Vec<Tensor<V>>, TensorError>) -> Result<
    Seq<TensorModel<V>>,
    TensorError,
> {
    match r {
        Ok(ts) => Ok(owned_models(ts@)),
        Err(e) => Err(e),
    }
}

impl<V> Tensor<V> {
    #[verifier::type_invariant]
    spec fn well_formed(self) -> bool {
        self.blob@.len() == product(self.shape@)
    }

    /// A tensor over a given buffer, if the buffer has the size that the
    /// shape describes.
    pub fn raw(shape: &[usize], blob: Vec<V>) -> (r: Result<Tensor<V>, TensorError>)
        ensures
            match r {
                Ok(t) => t@.shape == shape@ && t@.blob == blob@ && product(shape@) == blob@.len(),
                Err(e) => e == TensorError::MalformedBuffer && product(shape@) != blob@.len(),
            },
    {
        let len: usize = blob.len();
        match checked_product(shape) {
            Some(p) => {
                if p == len {
                    Ok(Tensor { shape: copy_of(shape), blob })
                } else {
                    Err(TensorError::MalformedBuffer)
                }
            },
            None => Err(TensorError::MalformedBuffer),
        }
    }

    /// The tensor of rank zero that holds one element.
    pub fn scalar(value: V) -> (r: Tensor<V>)
        ensures
            r@.shape == Seq::<usize>::empty(),
            r@.blob == seq![value],
    {
        let mut blob: Vec<V> = Vec::new();
        blob.push(value);
        Tensor { shape: Vec::new(), blob }
    }

    pub fn shape(&self) -> (r: &[usize])
        ensures
            r@ == self@.shape,
    {
        self.shape.as_slice()
    }

    /// The rank: the number of dimensions.
    pub fn dim(&self) -> (r: usize)
        ensures
            r == self@.shape.len(),
    {
        self.shape.len()
    }

    /// The number of elements.
    pub fn size(&self) -> (r: usize)
        ensures
            r == self@.blob.len(),
            r == product(self@.shape),
    {
        proof {
            use_type_invariant(self);
        }
        self.blob.len()
    }

    /// The elements in row-major order.
    pub fn blob(&self) -> (r: &[V])
        ensures
            r@ == self@.blob,
    {
        self.blob.as_slice()
    }
}

impl<V: Copy> Clone for Tensor<V> {
    fn clone(&self) -> (r: Self)
        ensures
            r@ == self@,
    {
        proof {
            use_type_invariant(self);
        }
        let mut blob: Vec<V> = Vec::new();
        let n: usize = self.blob.len();
        let mut i: usize = 0;
        while i < n
            invariant
                i <= n,
                n == self.blob@.len(),
                blob@ == self.blob@.take(i as int),
            decreases n - i,
        {
            blob.push(self.blob[i]);
            proof {
                assert(self.blob@.take(i + 1) =~= self.blob@.take(i as int).push(
                    self.blob@[i as int],
                ));
            }
            i += 1;
        }
        proof {
            assert(self.blob@.take(n as int) =~= self.blob@);
        }
        Tensor { shape: copy_of(self.shape.as_slice()), blob }
    }
}

/// The two element-wise operations that broadcast.
#[derive(Debug, Clone, Copy, PartialEq, Eq, Structural)]
pub enum Binary {
    Plus,
    Times,
}

impl Binary {
    /// What the operation makes of two elements.
    pub open spec fn of<V: Scalar>(self, x: V, y: V) -> V {
        match self {
            Binary::Plus => x.plus_spec(y),
            Binary::Times => x.times_spec(y),
        }
    }

    fn apply<V: Scalar>(self, x: V, y: V) -> (r: V)
        ensures
            r == self.of(x, y),
    {
        match self {
            Binary::Plus => x.plus(y),
            Binary::Times => x.times(y),
        }
    }
}

impl<V: Scalar> TensorModel<V> {
    /// Zeros in the same shape.
    pub open spec fn zeros_like(self) -> Self {
        TensorModel { shape: self.shape, blob: Seq::new(self.blob.len(), |i: int| V::zero_spec()) }
    }

    /// Ones in the same shape.
    pub open spec fn ones_like(self) -> Self {
        TensorModel { shape: self.shape, blob: Seq::new(self.blob.len(), |i: int| V::one_spec()) }
    }

    /// Every element multiplied by `c`.
    pub open spec fn scale(self, c: V) -> Self {
        TensorModel {
            shape: self.shape,
            blob: Seq::new(self.blob.len(), |i: int| self.blob[i].times_spec(c)),
        }
    }

    /// An element-wise operation in which the operand of lower rank is
    /// repeated along the leading dimensions of the other. It is defined
    /// where one shape ends with the other.
    pub open spec fn zip(self, rhs: Self, op: Binary) -> Result<Self, TensorError> {
        if is_suffix(rhs.shape, self.shape) {
            Ok(
                TensorModel {
                    shape: self.shape,
                    blob: Seq::new(
                        self.blob.len(),
                        |i: int| op.of(self.blob[i], rhs.blob[i % (rhs.blob.len() as int)]),
                    ),
                },
            )
        } else if is_suffix(self.shape, rhs.shape) {
            Ok(
                TensorModel {
                    shape: rhs.shape,
                    blob: Seq::new(
                        rhs.blob.len(),
                        |i: int| op.of(self.blob[i % (self.blob.len() as int)], rhs.blob[i]),
                    ),
                },
            )
        } else {
            Err(TensorError::InvalidBroadcast)
        }
    }

    pub open spec fn plus(self, rhs: Self) -> Result<Self, TensorError> {
        self.zip(rhs, Binary::Plus)
    }

    pub open spec fn times(self, rhs: Self) -> Result<Self, TensorError> {
        self.zip(rhs, Binary::Times)
    }

    /// The sum of the first `n` elements, taken from the left.
    pub open spec fn sum(self, n: nat) -> V
        decreases n,
    {
        if n == 0 {
            V::zero_spec()
        } else {
            self.sum((n - 1) as nat).plus_spec(self.blob[n - 1])
        }
    }

    /// The sum of all elements divided by their number.
    pub open spec fn mean(self) -> V {
        self.sum(self.blob.len()).over_count_spec(self.blob.len())
    }
}

impl<V: Scalar> Tensor<V> {
    /// One value in every place of the shape of this tensor.
    fn filled_like(&self, value: V) -> (r: Tensor<V>)
        ensures
            r@.shape == self@.shape,
            r@.blob.len() == self@.blob.len(),
            forall|i: int| 0 <= i < r@.blob.len() ==> r@.blob[i] == value,
    {
        proof {
            use_type_invariant(self);
        }
        let n: usize = self.blob.len();
        let mut blob: Vec<V> = Vec::new();
        let mut i: usize = 0;
        while i < n
            invariant
                i <= n,
                blob@.len() == i,
                forall|j: int| 0 <= j < i ==> blob@[j] == value,
            decreases n - i,
        {
            blob.push(value);
            i += 1;
        }
        Tensor { shape: copy_of(self.shape.as_slice()), blob }
    }

    /// Zeros in the shape of this tensor.
    pub fn zeros_like(&self) -> (r: Tensor<V>)
        ensures
            r@ == self@.zeros_like(),
    {
        let r = self.filled_like(V::zero());
        proof {
            assert(r@.blob =~= self@.zeros_like().blob);
        }
        r
    }

    /// Ones in the shape of this tensor.
    pub fn ones_like(&self) -> (r: Tensor<V>)
        ensures
            r@ == self@.ones_like(),
    {
        let r = self.filled_like(V::one());
        proof {
            assert(r@.blob =~= self@.ones_like().blob);
        }
        r
    }

    /// Every element multiplied by `c`.
    pub fn scale(&self, c: V) -> (r: Tensor<V>)
        ensures
            r@ == self@.scale(c),
    {
        proof {
            use_type_invariant(self);
        }
        let n: usize = self.blob.len();
        let mut blob: Vec<V> = Vec::new();
        let mut i: usize = 0;
        while i < n
            invariant
                i <= n,
                n == self.blob@.len(),
                blob@.len() == i,
                forall|j: int| 0 <= j < i ==> blob@[j] == self.blob@[j].times_spec(c),
            decreases n - i,
        {
            blob.push(self.blob[i].times(c));
            i += 1;
        }
        let r = Tensor { shape: copy_of(self.shape.as_slice()), blob };
        proof {
            assert(r@.blob =~= self@.scale(c).blob);
        }
        r
    }

    /// `long` combined with `short` repeated along its leading dimensions;
    /// `flipped` says that `short` is the left operand.
    fn spread(long: &Tensor<V>, short: &Tensor<V>, op: Binary, flipped: bool) -> (r: Tensor<V>)
        requires
            is_suffix(short@.shape, long@.shape),
        ensures
            r@.shape == long@.shape,
            r@.blob.len() == long@.blob.len(),
            forall|i: int|
                0 <= i < long@.blob.len() ==> r@.blob[i] == (if flipped {
                    op.of(short@.blob[i % (short@.blob.len() as int)], long@.blob[i])
                } else {
                    op.of(long@.blob[i], short@.blob[i % (short@.blob.len() as int)])
                }),
    {
        proof {
            use_type_invariant(long);
            use_type_invariant(short);
            let d = long@.shape.len() - short@.shape.len();
            lemma_product_split(long@.shape, d);
            let a = product(long@.shape.take(d));
            let b = product(short@.shape);
            assert(b == 0 ==> a * b == 0) by (nonlinear_arith);
        }
        let n: usize = long.blob.len();
        let m: usize = short.blob.len();
        let mut blob: Vec<V> = Vec::new();
        let mut i: usize = 0;
        while i < n
            invariant
                i <= n,
                n == long.blob@.len(),
                m == short.blob@.len(),
                n > 0 ==> m > 0,
                blob@.len() == i,
                forall|j: int|
                    0 <= j < i ==> blob@[j] == (if flipped {
                        op.of(short.blob@[j % (m as int)], long.blob@[j])
                    } else {
                        op.of(long.blob@[j], short.blob@[j % (m as int)])
                    }),
            decreases n - i,
        {
            let x: V = long.blob[i];
            let y: V = short.blob[i % m];
            let z: V = if flipped {
                op.apply(y, x)
            } else {
                op.apply(x, y)
            };
            blob.push(z);
            i += 1;
        }
        Tensor { shape: copy_of(long.shape.as_slice()), blob }
    }

    fn zip(&self, rhs: &Tensor<V>, op: Binary) -> (r: Result<Tensor<V>, TensorError>)
        ensures
            outcome(r) == self@.zip(rhs@, op),
    {
        if ends_with(&self.shape, &rhs.shape) {
            let t = Tensor::spread(self, rhs, op, false);
            proof {
                assert(t@.blob =~= self@.zip(rhs@, op)->Ok_0.blob);
            }
            Ok(t)
        } else if ends_with(&rhs.shape, &self.shape) {
            let t = Tensor::spread(rhs, self, op, true);
            proof {
                assert(t@.blob =~= self@.zip(rhs@, op)->Ok_0.blob);
            }
            Ok(t)
        } else {
            Err(TensorError::InvalidBroadcast)
        }
    }

    /// The element-wise sum, with broadcasting.
    pub fn plus(&self, rhs: &Tensor<V>) -> (r: Result<Tensor<V>, TensorError>)
        ensures
            outcome(r) == self@.plus(rhs@),
    {
        self.zip(rhs, Binary::Plus)
    }

    /// The element-wise product, with broadcasting.
    pub fn times(&self, rhs: &Tensor<V>) -> (r: Result<Tensor<V>, TensorError>)
        ensures
            outcome(r) == self@.times(rhs@),
    {
        self.zip(rhs, Binary::Times)
    }

    /// The sum of all elements divided by their number.
    pub fn mean(&self) -> (r: V)
        ensures
            r == self@.mean(),
    {
        let n: usize = self.blob.len();
        let mut acc: V = V::zero();
        let mut i: usize = 0;
        while i < n
            invariant
                i <= n,
                n == self.blob@.len(),
                acc == self@.sum(i as nat),
            decreases n - i,
        {
            acc = acc.plus(self.blob[i]);
            i += 1;
        }
        acc.over_count(n)
    }
}

impl<V: Scalar> TensorModel<V> {
    /// The sum of `k` elements that lie `m` apart, starting at `j`.
    pub open spec fn column_sum(self, m: int, j: int, k: int) -> V
        decreases k,
    {
        if k <= 0 {
            V::zero_spec()
        } else if k == 1 {
            self.blob[j]
        } else {
            self.column_sum(m, j, k - 1).plus_spec(self.blob[(k - 1) * m + j])
        }
    }

    /// The sum over the leading dimensions: what is left has the last
    /// `rank` dimensions, and each element is the sum of the elements that
    /// stood at its place in the slices of that shape.
    pub open spec fn sum_leading(self, rank: nat) -> Result<Self, TensorError> {
        if rank > self.shape.len() {
            Err(TensorError::IndexOutOfRange)
        } else {
            let tail = self.shape.skip(self.shape.len() - rank);
            let m = product(tail);
            if m > usize::MAX {
                Err(TensorError::MalformedBuffer)
            } else {
                Ok(TensorModel { shape: tail, blob: self.column_sums(m) })
            }
        }
    }

    /// The sums of the columns of a buffer read as rows of `m` elements.
    pub open spec fn column_sums(self, m: nat) -> Seq<V> {
        let k = (self.blob.len() as int) / (m as int);
        Seq::new(m, |j: int| self.column_sum(m as int, j, k))
    }

    /// Ones where the mask equals `flag`, zeros elsewhere.
    pub open spec fn indicator(mask: TensorModel<bool>, flag: bool) -> Self {
        TensorModel {
            shape: mask.shape,
            blob: Seq::new(
                mask.blob.len(),
                |i: int|
                    if mask.blob[i] == flag {
                        V::one_spec()
                    } else {
                        V::zero_spec()
                    },
            ),
        }
    }
}

impl<V> TensorModel<V> {
    /// The number of rows: the first dimension, or none at rank zero.
    pub open spec fn row_count(self) -> nat {
        if self.shape.len() == 0 {
            0
        } else {
            self.shape[0] as nat
        }
    }

    /// The shape of one row.
    pub open spec fn row_shape(self) -> Seq<usize> {
        if self.shape.len() == 0 {
            Seq::empty()
        } else {
            self.shape.skip(1)
        }
    }

    /// The rows with the given numbers, one after the other.
    pub open spec fn gathered(self, picks: Seq<usize>) -> Seq<V>
        decreases picks.len(),
    {
        if picks.len() == 0 {
            Seq::empty()
        } else {
            let w = product(self.row_shape());
            self.gathered(picks.drop_last()) + self.blob.subrange(
                picks.last() * w,
                picks.last() * w + w,
            )
        }
    }

    /// For each index the row with that number; the result has the shape of
    /// the index followed by the shape of a row.
    pub open spec fn rows(self, index: TensorModel<usize>) -> Result<Self, TensorError> {
        if forall|p: int| 0 <= p < index.blob.len() ==> index.blob[p] < self.row_count() {
            Ok(
                TensorModel {
                    shape: index.shape + self.row_shape(),
                    blob: self.gathered(index.blob),
                },
            )
        } else {
            Err(TensorError::IndexOutOfRange)
        }
    }

    /// The elements under the mask replaced by `value`. The mask is laid
    /// over every slice of the mask's rank, and has to cover it.
    pub open spec fn masked_fill(self, mask: TensorModel<bool>, value: V) -> Result<
        Self,
        TensorError,
    > {
        if self.shape.len() < mask.shape.len() {
            Err(TensorError::ShapeMismatch)
        } else {
            let m = product(self.shape.skip(self.shape.len() - mask.shape.len()));
            if self.blob.len() > 0 && m > mask.blob.len() {
                Err(TensorError::MalformedBuffer)
            } else {
                Ok(
                    TensorModel {
                        shape: self.shape,
                        blob: Seq::new(
                            self.blob.len(),
                            |i: int|
                                if mask.blob[i % (m as int)] {
                                    value
                                } else {
                                    self.blob[i]
                                },
                        ),
                    },
                )
            }
        }
    }
}

impl<V: Scalar> Tensor<V> {
    /// The sum over the leading dimensions, keeping the last `rank`.
    pub fn sum_leading(&self, rank: usize) -> (r: Result<Tensor<V>, TensorError>)
        ensures
            outcome(r) == self@.sum_leading(rank as nat),
    {
        proof {
            use_type_invariant(self);
        }
        let d: usize = self.shape.len();
        if rank > d {
            return Err(TensorError::IndexOutOfRange);
        }
        let tail: Vec<usize> = copy_from(&self.shape, d - rank);
        match checked_product(tail.as_slice()) {
            None => Err(TensorError::MalformedBuffer),
            Some(m) => {
                let n: usize = self.blob.len();
                let mut blob: Vec<V> = Vec::new();
                let mut j: usize = 0;
                while j < m
                    invariant
                        j <= m,
                        n == self.blob@.len(),
                        blob@.len() == j,
                        forall|q: int|
                            0 <= q < j ==> blob@[q] == self@.column_sum(
                                m as int,
                                q,
                                (n as int) / (m as int),
                            ),
                    decreases m - j,
                {
                    let count: usize = n / m;
                    proof {
                        assert(m > 0 ==> (n / m) * m <= n) by (nonlinear_arith);
                    }
                    let mut acc: V = V::zero();
                    if count > 0 {
                        proof {
                            assert(count >= 1 && count * m <= n ==> m <= n) by (nonlinear_arith);
                        }
                        acc = self.blob[j];
                        let mut k: usize = 1;
                        while k < count
                            invariant
                                1 <= k <= count,
                                j < m,
                                count * m <= n,
                                n == self.blob@.len(),
                                acc == self@.column_sum(m as int, j as int, k as int),
                            decreases count - k,
                        {
                            proof {
                                assert(k < count && j < m && count * m <= n ==> k * m + j < n)
                                    by (nonlinear_arith);
                            }
                            acc = acc.plus(self.blob[k * m + j]);
                            k += 1;
                        }
                    }
                    blob.push(acc);
                    j += 1;
                }
                let t = Tensor { shape: tail, blob };
                proof {
                    let want = self@.sum_leading(rank as nat);
                    assert(self@.shape.skip(self@.shape.len() - rank) == tail@);
                    assert(want is Ok);
                    assert(want == Ok::<TensorModel<V>, TensorError>(
                        TensorModel { shape: tail@, blob: self@.column_sums(m as nat) },
                    ));
                    assert(t@.blob =~= self@.column_sums(m as nat));
                }
                Ok(t)
            },
        }
    }

    /// Ones where the mask equals `flag`, zeros elsewhere.
    pub fn indicator(mask: &Tensor<bool>, flag: bool) -> (r: Tensor<V>)
        ensures
            r@ == TensorModel::<V>::indicator(mask@, flag),
    {
        proof {
            use_type_invariant(mask);
        }
        let n: usize = mask.blob.len();
        let mut blob: Vec<V> = Vec::new();
        let mut i: usize = 0;
        while i < n
            invariant
                i <= n,
                n == mask.blob@.len(),
                blob@.len() == i,
                forall|j: int|
                    0 <= j < i ==> blob@[j] == (if mask.blob@[j] == flag {
                        V::one_spec()
                    } else {
                        V::zero_spec()
                    }),
            decreases n - i,
        {
            let v: V = if mask.blob[i] == flag {
                V::one()
            } else {
                V::zero()
            };
            blob.push(v);
            i += 1;
        }
        let r = Tensor { shape: copy_of(mask.shape.as_slice()), blob };
        proof {
            assert(r@.blob =~= TensorModel::<V>::indicator(mask@, flag).blob);
        }
        r
    }
}

pub proof fn lemma_rows_split<V>(t: TensorModel<V>)
    requires
        t.shape.len() > 0,
    ensures
        product(t.shape) == t.row_count() * product(t.row_shape()),
{
    lemma_product_split(t.shape, 1);
    let head = t.shape.take(1);
    assert(head.drop_last() =~= Seq::<usize>::empty());
    assert(product(head.drop_last()) == 1);
    assert(product(head) == 1 * (t.shape[0] as nat));
}

pub proof fn lemma_gathered_len<V>(t: TensorModel<V>, picks: Seq<usize>)
    requires
        t.blob.len() == product(t.shape),
        forall|p: int| 0 <= p < picks.len() ==> picks[p] < t.row_count(),
    ensures
        t.gathered(picks).len() == picks.len() * product(t.row_shape()),
    decreases picks.len(),
{
    let w = product(t.row_shape());
    if picks.len() > 0 {
        lemma_gathered_len(t, picks.drop_last());
        assert(picks[picks.len() - 1] < t.row_count());
        lemma_rows_split(t);
        let i = picks.last() as nat;
        let c = t.row_count();
        let n = picks.len() as nat;
        assert(i < c ==> i * w + w <= c * w) by (nonlinear_arith);
        assert((n - 1) * w + w == n * w) by (nonlinear_arith);
    } else {
        assert(0 * w == 0) by (nonlinear_arith);
    }
}

impl<V: Copy> Tensor<V> {
    /// For each index the row with that number.
    pub fn rows(&self, index: &Tensor<usize>) -> (r: Result<Tensor<V>, TensorError>)
        ensures
            outcome(r) == self@.rows(index@),
    {
        proof {
            use_type_invariant(self);
            use_type_invariant(index);
        }
        let n: usize = index.blob.len();
        let rank: usize = self.shape.len();
        let count: usize = if rank == 0 {
            0
        } else {
            self.shape[0]
        };
        let mut shape: Vec<usize> = copy_of(index.shape.as_slice());
        if rank > 0 {
            let mut rest: Vec<usize> = copy_from(&self.shape, 1);
            shape.append(&mut rest);
        }
        assert(shape@ =~= index@.shape + self@.row_shape());
        let ghost w = product(self@.row_shape());
        let mut blob: Vec<V> = Vec::new();
        if n > 0 {
            if count == 0 {
                assert(!(index@.blob[0] < self@.row_count()));
                return Err(TensorError::IndexOutOfRange);
            }
            let width: usize = self.blob.len() / count;
            proof {
                lemma_rows_split(self@);
                let c = count as nat;
                assert(c > 0 ==> (c * w) / c == w) by (nonlinear_arith);
            }
            let mut p: usize = 0;
            while p < n
                invariant
                    p <= n,
                    n == index.blob@.len(),
                    count == self@.row_count(),
                    count > 0,
                    width == w,
                    w == product(self@.row_shape()),
                    self.blob@.len() == count * w,
                    self.blob@.len() <= usize::MAX,
                    self@.blob == self.blob@,
                    forall|q: int| 0 <= q < p ==> index.blob@[q] < count,
                    blob@ == self@.gathered(index.blob@.take(p as int)),
                decreases n - p,
            {
                let pick: usize = index.blob[p];
                if pick >= count {
                    return Err(TensorError::IndexOutOfRange);
                }
                proof {
                    let i = pick as nat;
                    let c = count as nat;
                    assert(i < c ==> i * w + w <= c * w) by (nonlinear_arith);
                    assert(i * w >= 0) by (nonlinear_arith);
                }
                let base: usize = pick * width;
                let ghost before = blob@;
                let mut j: usize = 0;
                while j < width
                    invariant
                        j <= width,
                        base + width <= self.blob@.len(),
                        self.blob@.len() <= usize::MAX,
                        blob@ == before + self.blob@.subrange(base as int, base + j),
                    decreases width - j,
                {
                    blob.push(self.blob[base + j]);
                    proof {
                        assert(self.blob@.subrange(base as int, base + j + 1)
                            =~= self.blob@.subrange(base as int, base + j).push(
                            self.blob@[base + j],
                        ));
                    }
                    j += 1;
                }
                proof {
                    let now = index.blob@.take(p + 1);
                    assert(now.drop_last() =~= index.blob@.take(p as int));
                    assert(now.last() == pick);
                }
                p += 1;
            }
            proof {
                assert(index.blob@.take(n as int) =~= index.blob@);
            }
        }
        proof {
            lemma_gathered_len(self@, index@.blob);
            lemma_product_concat(index@.shape, self@.row_shape());
        }
        Ok(Tensor { shape, blob })
    }

    /// The elements under the mask replaced by `value`.
    pub fn masked_fill(&self, mask: &Tensor<bool>, value: V) -> (r: Result<
        Tensor<V>,
        TensorError,
    >)
        ensures
            outcome(r) == self@.masked_fill(mask@, value),
    {
        proof {
            use_type_invariant(self);
            use_type_invariant(mask);
        }
        let d: usize = self.shape.len();
        let r: usize = mask.shape.len();
        if d < r {
            return Err(TensorError::ShapeMismatch);
        }
        let n: usize = self.blob.len();
        if n == 0 {
            let t = self.clone();
            proof {
                assert(t@.blob =~= self@.masked_fill(mask@, value)->Ok_0.blob);
            }
            return Ok(t);
        }
        let tail: Vec<usize> = copy_from(&self.shape, d - r);
        proof {
            lemma_product_split(self@.shape, d - r);
            let a = product(self@.shape.take(d - r));
            let b = product(tail@);
            assert(a * b > 0 ==> 1 <= b <= a * b) by (nonlinear_arith);
        }
        let m: usize = match checked_product(tail.as_slice()) {
            Some(m) => m,
            None => {
                return Err(TensorError::MalformedBuffer);
            },
        };
        if m > mask.blob.len() {
            return Err(TensorError::MalformedBuffer);
        }
        let mut blob: Vec<V> = Vec::new();
        let mut i: usize = 0;
        while i < n
            invariant
                i <= n,
                n == self.blob@.len(),
                1 <= m <= mask.blob@.len(),
                blob@.len() == i,
                forall|q: int|
                    0 <= q < i ==> blob@[q] == (if mask.blob@[q % (m as int)] {
                        value
                    } else {
                        self.blob@[q]
                    }),
            decreases n - i,
        {
            let v: V = if mask.blob[i % m] {
                value
            } else {
                self.blob[i]
            };
            blob.push(v);
            i += 1;
        }
        let t = Tensor { shape: copy_of(self.shape.as_slice()), blob };
        proof {
            assert(t@.blob =~= self@.masked_fill(mask@, value)->Ok_0.blob);
        }
        Ok(t)
    }
}

} // verus!
