//! An evaluator for scalar and vector expressions with named variables,
//! a small command language and a replayable save format.
//!
//! Scalars are exact fixed-point decimals with six fractional digits.

pub mod scalar;
pub mod error;
pub mod value;
pub mod render;
pub mod syntax;
pub mod state;
pub mod eval;
pub mod command;
pub mod persist;
pub mod laws;
pub mod readback;
