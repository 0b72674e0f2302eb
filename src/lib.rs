//! A reverse-mode automatic-differentiation engine over saturating
//! fixed-point scalars, with the optimizers that train its parameters.
//!
//! Values live in a `graph::Graph`, an arena of scalar nodes addressed by
//! index; `tensor::Tensor` arranges nodes in shaped arrays; and
//! `optimizer::Optimizer` updates parameter nodes from their gradients.
pub mod fixed;
pub mod graph;
pub mod optimizer;
pub mod tensor;
