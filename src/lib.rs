//! Scalar reverse-mode automatic differentiation on an append-only tape of
//! fixed-point numbers, and a small feed-forward network built on it.
pub mod fixed;
pub mod tape;
pub mod value;
pub mod laws;
pub mod nn;

use vstd::prelude::*;

verus! {

} // verus!
