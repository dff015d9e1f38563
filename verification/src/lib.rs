//! A scalar reverse-mode automatic differentiation engine.
//!
//! Every scalar quantity is a node in a computation graph that remembers the
//! operation and the operands that produced it.  A single backward traversal
//! over the graph fills in the gradient of one output with respect to every
//! node upstream of it.
//!
//! Scalars are exact rationals (`rational::Rat`), so every forward value and
//! every gradient is computed and specified exactly.

pub mod backward;
pub mod graph;
pub mod laws;
pub mod rational;
