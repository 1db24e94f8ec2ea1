//! Activation functions, supplied to the layer as a value/derivative pair.
//!
//! The layer never inspects an activation: it only applies the two functions
//! element-wise. An implementor describes both functions at the
//! specification level, so that the layer's contracts can speak of the exact
//! numbers an activation produces.

use vstd::prelude::*;
use crate::fixed::Fx;
use crate::fixed::FX_SCALE;

verus! {

/// A pair of pure unary functions over the layer's scalar type: the
/// activation value and its derivative.
///
/// `spec_value` and `spec_derivative` give the mathematical content of the
/// two functions, on raw fixed-point units; `value_in_range` and
/// `derivative_in_range` delimit the inputs on which the executable
/// functions may be applied (for instance, where their result fits the raw
/// representation).
pub trait Activation: Sized {
    /// Mathematical value function, on raw units.
    spec fn spec_value(&self, x: int) -> int;

    /// Mathematical derivative function, on raw units.
    spec fn spec_derivative(&self, x: int) -> int;

    /// Inputs on which `value` may be applied.
    spec fn value_in_range(&self, x: int) -> bool;

    /// Inputs on which `derivative` may be applied.
    spec fn derivative_in_range(&self, x: int) -> bool;

    /// The activation value at `x`.
    fn value(&self, x: Fx) -> (r: Fx)
        requires
            self.value_in_range(x@),
        ensures
            r@ == self.spec_value(x@),
    ;

    /// The activation derivative at `x`.
    fn derivative(&self, x: Fx) -> (r: Fx)
        requires
            self.derivative_in_range(x@),
        ensures
            r@ == self.spec_derivative(x@),
    ;
}

/// The identity activation: value `x`, derivative the constant one.
#[derive(Clone, Copy, PartialEq, Eq, Structural, Debug)]
pub struct Identity;

impl Activation for Identity {
    open spec fn spec_value(&self, x: int) -> int {
        x
    }

    open spec fn spec_derivative(&self, x: int) -> int {
        FX_SCALE as int
    }

    open spec fn value_in_range(&self, x: int) -> bool {
        true
    }

    open spec fn derivative_in_range(&self, x: int) -> bool {
        true
    }

    fn value(&self, x: Fx) -> (r: Fx) {
        x
    }

    fn derivative(&self, x: Fx) -> (r: Fx) {
        Fx::one()
    }
}

/// The identity activation pair.
pub fn identity() -> (r: Identity)
    ensures
        r == (Identity),
{
    Identity
}

} // verus!
