//! A reverse-mode automatic-differentiation engine over scalar values, with
//! a small feed-forward network layer and a gradient-descent optimizer on
//! top. Scalars are IEEE-754 double-precision bit patterns, so the graph,
//! the backward pass and the optimizer are verified end to end, with the
//! machine arithmetic itself supplied by outside crates behind a handful of
//! trusted wrappers.

pub mod engine;
pub mod nn;
pub mod scalar;
