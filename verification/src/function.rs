//! Differentiable elementwise functions: the pluggable pair of a forward value
//! and a local derivative.

use vstd::prelude::*;
use crate::scalar::Scalar;

verus! {

/// A function of one number together with its derivative.
///
/// `value` and `slope` say what the function and its derivative are; `f` and
/// `df` compute them. The derivative is taken at the input of the function,
/// not at its output.
pub trait DifferentiableFunction<S> {
    /// The function itself.
    spec fn value(x: S) -> S;

    /// The derivative of the function at `x`.
    spec fn slope(x: S) -> S;

    fn f(x: S) -> (r: S)
        ensures
            r == Self::value(x),
    ;

    fn df(x: S) -> (r: S)
        ensures
            r == Self::slope(x),
    ;
}

/// The function `x * x`, with derivative `x + x`.
pub struct Square;

impl<S: Scalar> DifferentiableFunction<S> for Square {
    open spec fn value(x: S) -> S {
        x.product(x)
    }

    open spec fn slope(x: S) -> S {
        x.sum(x)
    }

    fn f(x: S) -> (r: S) {
        x.times(x)
    }

    fn df(x: S) -> (r: S) {
        x.plus(x)
    }
}

} // verus!
