//! A verified fully-connected ("dense") feedforward neural-network layer.
//!
//! The layer owns a flattened row-major weight matrix and a bias vector,
//! evaluates `output = activation(weights * input + biases)`, and offers two
//! in-place training rules: the perceptron delta rule and a one-layer step of
//! gradient descent that also returns the error signal for an upstream layer.
//!
//! All scalars are fixed-point numbers (see [`fixed`]): exact integer
//! arithmetic lets every formula be stated and proved precisely.

pub mod fixed;
pub mod activation;
pub mod training;
pub mod feedforward;
