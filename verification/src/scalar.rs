use vstd::prelude::*;

verus! {

/// A number that a network can compute with.
///
/// The library never looks inside a scalar. It asks for the three small
/// integers it needs (`-1`, `0`, `1`) and combines values through `sum`,
/// `product` and `larger`; its contracts say which of these operations were
/// applied to which operands, in which order.
pub trait Scalar: Copy {
    /// The scalar that stands for a small integer.
    fn from_int(value: i8) -> Self;

    /// `self + rhs`.
    fn sum(self, rhs: Self) -> Self;

    /// `self * rhs`.
    fn product(self, rhs: Self) -> Self;

    /// The greater of `self` and `rhs`.
    fn larger(self, rhs: Self) -> Self;
}

/// `result` is what `T::from_int(value)` may return.
pub open spec fn constant<T: Scalar>(value: i8, result: T) -> bool {
    call_ensures(T::from_int, (value,), result)
}

/// `result` is what `a.sum(b)` may return.
pub open spec fn adds<T: Scalar>(a: T, b: T, result: T) -> bool {
    call_ensures(T::sum, (a, b), result)
}

/// `result` is what `a.product(b)` may return.
pub open spec fn multiplies<T: Scalar>(a: T, b: T, result: T) -> bool {
    call_ensures(T::product, (a, b), result)
}

/// `result` is what `a.larger(b)` may return.
pub open spec fn picks_larger<T: Scalar>(a: T, b: T, result: T) -> bool {
    call_ensures(T::larger, (a, b), result)
}

/// `T::from_int` returns one scalar for each integer.
pub open spec fn fixed_constants<T: Scalar>() -> bool {
    forall|value: i8, x: T, y: T|
        #![trigger constant(value, x), constant(value, y)]
        constant(value, x) && constant(value, y) ==> x == y
}

/// Every operation of `T` returns one value for given operands.
pub open spec fn exact<T: Scalar>() -> bool {
    &&& fixed_constants::<T>()
    &&& forall|a: T, b: T, x: T, y: T|
        #![trigger adds(a, b, x), adds(a, b, y)]
        adds(a, b, x) && adds(a, b, y) ==> x == y
    &&& forall|a: T, b: T, x: T, y: T|
        #![trigger multiplies(a, b, x), multiplies(a, b, y)]
        multiplies(a, b, x) && multiplies(a, b, y) ==> x == y
    &&& forall|a: T, b: T, x: T, y: T|
        #![trigger picks_larger(a, b, x), picks_larger(a, b, y)]
        picks_larger(a, b, x) && picks_larger(a, b, y) ==> x == y
}

} // verus!
