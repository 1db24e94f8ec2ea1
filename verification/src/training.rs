//! Training rules: value objects carrying a learning rate.
//!
//! The layer dispatches on the rule type: `PerceptronRule` selects the
//! delta rule applied to the activated output, `GradientDescent` selects the
//! backpropagation step that uses the activation derivative.

use vstd::prelude::*;
use crate::fixed::Fx;

verus! {

/// The perceptron delta rule, with its learning rate.
#[derive(Clone, Copy, PartialEq, Eq, Structural, Debug)]
pub struct PerceptronRule {
    pub rate: Fx,
}

/// The gradient-descent rule, with its learning rate.
#[derive(Clone, Copy, PartialEq, Eq, Structural, Debug)]
pub struct GradientDescent {
    pub rate: Fx,
}

} // verus!
