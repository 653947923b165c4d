//! Shapes: lists of dimensions, and the number of elements they describe.

use vstd::prelude::*;

verus! {

/// The number of elements that a shape describes.
pub open spec fn product(s: Seq<usize>) -> nat
    decreases s.len(),
{
    if s.len() == 0 {
        1
    } else {
        product(s.drop_last()) * (s.last() as nat)
    }
}

/// `short` is what `long` ends with.
pub open spec fn is_suffix(short: Seq<usize>, long: Seq<usize>) -> bool {
    short.len() <= long.len() && long.skip(long.len() - short.len()) =~= short
}

pub proof fn lemma_product_push(s: Seq<usize>, x: usize)
    ensures
        product(s.push(x)) == product(s) * (x as nat),
{
    assert(s.push(x).drop_last() =~= s);
}

pub proof fn lemma_product_split(s: Seq<usize>, k: int)
    requires
        0 <= k <= s.len(),
    ensures
        product(s) == product(s.take(k)) * product(s.skip(k)),
    decreases s.len(),
{
    if k == s.len() {
        assert(s.take(k) =~= s);
        assert(s.skip(k).len() == 0);
        assert(product(s.skip(k)) == 1);
        assert(product(s) * 1 == product(s)) by (nonlinear_arith);
    } else {
        let front = s.drop_last();
        lemma_product_split(front, k);
        assert(front.take(k) =~= s.take(k));
        assert(front.skip(k) =~= s.skip(k).drop_last());
        assert(s.skip(k).last() == s.last());
        let a = product(s.take(k));
        let b = product(front.skip(k));
        let c = s.last() as nat;
        assert(product(s) == product(front) * c);
        assert(product(front) == a * b);
        assert(product(s.skip(k)) == b * c);
        assert((a * b) * c == a * (b * c)) by (nonlinear_arith);
    }
}

pub proof fn lemma_product_concat(a: Seq<usize>, b: Seq<usize>)
    ensures
        product(a + b) == product(a) * product(b),
{
    lemma_product_split(a + b, a.len() as int);
    assert((a + b).take(a.len() as int) =~= a);
    assert((a + b).skip(a.len() as int) =~= b);
}

pub proof fn lemma_product_zero(s: Seq<usize>, i: int)
    requires
        0 <= i < s.len(),
        s[i] == 0,
    ensures
        product(s) == 0,
    decreases s.len(),
{
    if i < s.len() - 1 {
        lemma_product_zero(s.drop_last(), i);
        assert(0 * (s.last() as nat) == 0) by (nonlinear_arith);
    } else {
        assert(product(s.drop_last()) * 0 == 0) by (nonlinear_arith);
    }
}

pub proof fn lemma_product_positive(s: Seq<usize>)
    requires
        forall|i: int| 0 <= i < s.len() ==> s[i] >= 1,
    ensures
        product(s) >= 1,
    decreases s.len(),
{
    if s.len() > 0 {
        lemma_product_positive(s.drop_last());
        let a = product(s.drop_last());
        let b = s.last() as nat;
        assert(a >= 1 && b >= 1 ==> a * b >= 1) by (nonlinear_arith);
    }
}

/// The product of the dimensions, where it fits a machine word.
pub fn checked_product(shape: &[usize]) -> (r: Option<usize>)
    ensures
        match r {
            Some(p) => p == product(shape@),
            None => product(shape@) > usize::MAX,
        },
{
    let n: usize = shape.len();
    let mut i: usize = 0;
    while i < n
        invariant
            i <= n,
            n == shape@.len(),
            forall|j: int| 0 <= j < i ==> shape@[j] >= 1,
        decreases n - i,
    {
        if shape[i] == 0 {
            proof {
                lemma_product_zero(shape@, i as int);
            }
            return Some(0);
        }
        i += 1;
    }
    let mut acc: usize = 1;
    let mut k: usize = 0;
    while k < n
        invariant
            k <= n,
            n == shape@.len(),
            forall|j: int| 0 <= j < n ==> shape@[j] >= 1,
            acc == product(shape@.take(k as int)),
        decreases n - k,
    {
        proof {
            assert(shape@.take(k + 1) =~= shape@.take(k as int).push(shape@[k as int]));
            lemma_product_push(shape@.take(k as int), shape@[k as int]);
        }
        match acc.checked_mul(shape[k]) {
            Some(p) => {
                acc = p;
            },
            None => {
                proof {
                    lemma_product_split(shape@, k + 1);
                    lemma_product_positive(shape@.skip(k + 1));
                    let a = product(shape@.take(k + 1));
                    let b = product(shape@.skip(k + 1));
                    assert(b >= 1 ==> a * b >= a) by (nonlinear_arith);
                }
                return None;
            },
        }
        k += 1;
    }
    proof {
        assert(shape@.take(n as int) =~= shape@);
    }
    Some(acc)
}

/// A copy of a list of dimensions or ids.
pub fn copy_of(items: &[usize]) -> (r: Vec<usize>)
    ensures
        r@ == items@,
{
    let mut out: Vec<usize> = Vec::new();
    let n: usize = items.len();
    let mut i: usize = 0;
    while i < n
        invariant
            i <= n,
            n == items@.len(),
            out@ == items@.take(i as int),
        decreases n - i,
    {
        out.push(items[i]);
        proof {
            assert(items@.take(i + 1) =~= items@.take(i as int).push(items@[i as int]));
        }
        i += 1;
    }
    proof {
        assert(items@.take(n as int) =~= items@);
    }
    out
}

/// Whether `long` ends with `short`.
pub fn ends_with(long: &Vec<usize>, short: &Vec<usize>) -> (r: bool)
    ensures
        r == is_suffix(short@, long@),
{
    let n: usize = long.len();
    let m: usize = short.len();
    if m > n {
        return false;
    }
    let d: usize = n - m;
    let mut i: usize = 0;
    while i < m
        invariant
            i <= m,
            m == short@.len(),
            n == long@.len(),
            d == n - m,
            forall|j: int| 0 <= j < i ==> long@[d + j] == short@[j],
        decreases m - i,
    {
        if long[d + i] != short[i] {
            proof {
                assert(long@.skip(d as int)[i as int] == long@[d + i]);
            }
            return false;
        }
        i += 1;
    }
    proof {
        assert(long@.skip(d as int) =~= short@);
    }
    true
}

/// A copy of the items from `start` on.
pub fn copy_from(items: &Vec<usize>, start: usize) -> (r: Vec<usize>)
    requires
        start <= items@.len(),
    ensures
        r@ == items@.skip(start as int),
{
    let n: usize = items.len();
    let mut out: Vec<usize> = Vec::new();
    let mut i: usize = start;
    while i < n
        invariant
            start <= i <= n,
            n == items@.len(),
            out@.len() == i - start,
            forall|j: int| 0 <= j < i - start ==> out@[j] == items@[start + j],
        decreases n - i,
    {
        out.push(items[i]);
        i += 1;
    }
    proof {
        assert(out@ =~= items@.skip(start as int));
    }
    out
}

} // verus!
