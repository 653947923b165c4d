//! The element type of a tensor, described by the arithmetic the engine needs.

use vstd::prelude::*;

verus! {

/// Arithmetic on tensor elements.
///
/// Every executable method returns the value of the specification function
/// of the same name, so element arithmetic is a function of its operands.
/// An implementation outside this crate keeps the default specification
/// functions, which say that much and no more: each is some function of
/// its operands.
pub trait Scalar: Copy {
    /// The additive identity.
    open spec fn zero_spec() -> Self {
        arbitrary()
    }

    /// The multiplicative identity.
    open spec fn one_spec() -> Self {
        arbitrary()
    }

    /// The sum of two elements.
    open spec fn plus_spec(self, rhs: Self) -> Self {
        (arbitrary::<spec_fn(bool, Self, Self) -> Self>())(false, self, rhs)
    }

    /// The product of two elements.
    open spec fn times_spec(self, rhs: Self) -> Self {
        (arbitrary::<spec_fn(bool, Self, Self) -> Self>())(true, self, rhs)
    }

    /// An element divided by a number of elements.
    open spec fn over_count_spec(self, n: nat) -> Self {
        (arbitrary::<spec_fn(Self, nat) -> Self>())(self, n)
    }

    /// The element that 32 random bits stand for.
    open spec fn from_word_spec(word: u32) -> Self {
        (arbitrary::<spec_fn(u32) -> Self>())(word)
    }

    fn zero() -> (r: Self)
        ensures
            r == Self::zero_spec(),
    ;

    fn one() -> (r: Self)
        ensures
            r == Self::one_spec(),
    ;

    fn plus(self, rhs: Self) -> (r: Self)
        ensures
            r == self.plus_spec(rhs),
    ;

    fn times(self, rhs: Self) -> (r: Self)
        ensures
            r == self.times_spec(rhs),
    ;

    fn over_count(self, n: usize) -> (r: Self)
        ensures
            r == self.over_count_spec(n as nat),
    ;

    fn from_word(word: u32) -> (r: Self)
        ensures
            r == Self::from_word_spec(word),
    ;
}

/// Exact integer elements: sums and products wrap, division truncates
/// towards zero, and dividing by a count of zero or by one beyond
/// `i64::MAX` gives zero. Random bits stand for the number they spell.
impl Scalar for i64 {
    open spec fn zero_spec() -> Self {
        0
    }

    open spec fn one_spec() -> Self {
        1
    }

    open spec fn plus_spec(self, rhs: Self) -> Self {
        self.wrapping_add(rhs)
    }

    open spec fn times_spec(self, rhs: Self) -> Self {
        self.wrapping_mul(rhs)
    }

    open spec fn over_count_spec(self, n: nat) -> Self {
        if n == 0 || n > i64::MAX {
            0
        } else if self >= 0 {
            ((self as int) / (n as int)) as i64
        } else {
            (-((-(self as int)) / (n as int))) as i64
        }
    }

    open spec fn from_word_spec(word: u32) -> Self {
        word as i64
    }

    fn zero() -> (r: Self) {
        0
    }

    fn one() -> (r: Self) {
        1
    }

    fn plus(self, rhs: Self) -> (r: Self) {
        self.wrapping_add(rhs)
    }

    fn times(self, rhs: Self) -> (r: Self) {
        self.wrapping_mul(rhs)
    }

    fn from_word(word: u32) -> (r: Self) {
        word as i64
    }

    fn over_count(self, n: usize) -> (r: Self) {
        if n == 0 || (n as u64) > 0x7fff_ffff_ffff_ffff_u64 {
            0
        } else {
            self / (n as i64)
        }
    }
}

/// The integer within the range of `i64` that differs from `z` by a
/// multiple of two to the 64th.
pub open spec fn wrapped(z: int) -> i64 {
    vstd::wrapping::i64_specs::signed_crop(z)
}

/// An integer of the range stands for itself.
pub proof fn lemma_wrapped_fixed(x: i64)
    ensures
        wrapped(x as int) == x,
{
    let r: int = 0x1_0000_0000_0000_0000;
    if x >= 0 {
        vstd::arithmetic::div_mod::lemma_small_mod(x as nat, r as nat);
    } else {
        vstd::arithmetic::div_mod::lemma_small_mod((x + r) as nat, r as nat);
        vstd::arithmetic::div_mod::lemma_mod_multiples_vanish(-1, x + r, r);
        assert(r * (-1) + (x + r) == x);
    }
}

/// Integers that differ by a multiple of two to the 64th wrap to one.
pub proof fn lemma_wrapped_shift(z: int, k: int)
    ensures
        wrapped(z + k * 0x1_0000_0000_0000_0000) == wrapped(z),
{
    let r: int = 0x1_0000_0000_0000_0000;
    vstd::arithmetic::div_mod::lemma_mod_multiples_vanish(k, z, r);
    assert(r * k + z == z + k * r) by (nonlinear_arith);
}

/// What an integer wraps to differs from it by a multiple of two to the
/// 64th.
pub proof fn lemma_wrapped_multiple(z: int) -> (k: int)
    ensures
        wrapped(z) == z - k * 0x1_0000_0000_0000_0000,
{
    let r: int = 0x1_0000_0000_0000_0000;
    vstd::arithmetic::div_mod::lemma_fundamental_div_mod(z, r);
    vstd::arithmetic::div_mod::lemma_mod_bound(z, r);
    let q = z / r;
    assert(z == r * q + z % r);
    if z % r > i64::MAX {
        assert(z - (q + 1) * r == z % r - r) by (nonlinear_arith)
            requires
                z == r * q + z % r,
        ;
        q + 1
    } else {
        assert(z - q * r == z % r) by (nonlinear_arith)
            requires
                z == r * q + z % r,
        ;
        q
    }
}

/// A wrapping sum is the wrapped sum.
pub proof fn lemma_plus_wraps(x: i64, y: i64)
    ensures
        x.plus_spec(y) == wrapped(x + y),
{
    let r: int = 0x1_0000_0000_0000_0000;
    let z = x + y;
    if z > i64::MAX {
        lemma_wrapped_fixed((z - r) as i64);
        lemma_wrapped_shift(z - r, 1);
        assert(z - r + 1 * r == z);
    } else if z < i64::MIN {
        lemma_wrapped_fixed((z + r) as i64);
        lemma_wrapped_shift(z + r, -1);
        assert(z + r + (-1) * r == z);
    } else {
        lemma_wrapped_fixed(z as i64);
    }
}

/// Wrapping one summand first changes nothing.
pub proof fn lemma_wrapped_sum(u: int, v: int)
    ensures
        wrapped(wrapped(u) + v) == wrapped(u + v),
{
    let r: int = 0x1_0000_0000_0000_0000;
    let k = lemma_wrapped_multiple(u);
    lemma_wrapped_shift(u + v, -k);
    assert(u + v + (-k) * r == (u - k * r) + v) by (nonlinear_arith);
}

/// Wrapping one factor first changes nothing.
pub proof fn lemma_wrapped_product(u: int, c: int)
    ensures
        wrapped(wrapped(u) * c) == wrapped(u * c),
{
    let r: int = 0x1_0000_0000_0000_0000;
    let k = lemma_wrapped_multiple(u);
    lemma_wrapped_shift(u * c, -(k * c));
    assert(u * c + (-(k * c)) * r == (u - k * r) * c) by (nonlinear_arith);
}

} // verus!
