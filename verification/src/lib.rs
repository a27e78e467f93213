//! A from-scratch feedforward neural network trainer: forward evaluation,
//! backpropagation, gradient descent with momentum and L2 regularization,
//! early stopping against a validation holdout, and batch-parallel gradient
//! accumulation, with the arithmetic pinned down bit for bit.

pub mod scalar;
pub mod rng;
pub mod linalg;
pub mod activation;
pub mod network;
pub mod gradient;
pub mod train;
pub mod codec;
pub mod laws;
