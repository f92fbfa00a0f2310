//! The arithmetic that entries and probabilities must offer, and the relations
//! through which every contract of the library speaks of it.
use vstd::prelude::*;

verus! {

/// A number type that can fill a vector or a matrix and serve as a probability.
///
/// The methods promise nothing by themselves. A contract of the library names a
/// result through the relations below, each of which holds of exactly the values
/// that the matching method can return for the given operands.
pub trait Scalar: Copy {
    /// The value that empty sums and fresh cells start from.
    fn zero() -> Self;

    /// The multiplicative unit, also the certain probability.
    fn one() -> Self;

    /// The scalar that stands for the count `n`.
    fn from_count(n: u32) -> Self;

    /// `self + rhs`.
    fn plus(self, rhs: Self) -> Self;

    /// `self - rhs`.
    fn minus(self, rhs: Self) -> Self;

    /// `self * rhs`.
    fn times(self, rhs: Self) -> Self;

    /// `self / rhs`, whatever the type makes of a zero divisor.
    fn over(self, rhs: Self) -> Self;

    /// The square root of `self`.
    fn root(self) -> Self;

    /// `self` raised to the power `exponent`.
    fn power(self, exponent: u32) -> Self;

    /// Whether `self <= rhs`.
    fn at_most(self, rhs: Self) -> bool;
}

/// `r` is a zero of the scalar type.
pub open spec fn is_zero<T: Scalar>(r: T) -> bool {
    call_ensures(T::zero, (), r)
}

/// `r` is a unit of the scalar type.
pub open spec fn is_one<T: Scalar>(r: T) -> bool {
    call_ensures(T::one, (), r)
}

/// `r` stands for the count `n`.
pub open spec fn is_count<T: Scalar>(n: u32, r: T) -> bool {
    call_ensures(T::from_count, (n,), r)
}

/// `r` is `a` plus `b`.
pub open spec fn is_sum<T: Scalar>(a: T, b: T, r: T) -> bool {
    call_ensures(T::plus, (a, b), r)
}

/// `r` is `a` minus `b`.
pub open spec fn is_difference<T: Scalar>(a: T, b: T, r: T) -> bool {
    call_ensures(T::minus, (a, b), r)
}

/// `r` is `a` times `b`.
pub open spec fn is_product<T: Scalar>(a: T, b: T, r: T) -> bool {
    call_ensures(T::times, (a, b), r)
}

/// `r` is `a` divided by `b`.
pub open spec fn is_quotient<T: Scalar>(a: T, b: T, r: T) -> bool {
    call_ensures(T::over, (a, b), r)
}

/// `r` is the square root of `a`.
pub open spec fn is_root<T: Scalar>(a: T, r: T) -> bool {
    call_ensures(T::root, (a,), r)
}

/// `r` is `a` raised to `exponent`.
pub open spec fn is_power<T: Scalar>(a: T, exponent: u32, r: T) -> bool {
    call_ensures(T::power, (a, exponent), r)
}

/// The comparison `a <= b` can answer `r`.
pub open spec fn is_at_most<T: Scalar>(a: T, b: T, r: bool) -> bool {
    call_ensures(T::at_most, (a, b), r)
}

} // verus!
