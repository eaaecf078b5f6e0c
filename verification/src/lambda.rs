//! Lambda-calculus particles and their reactions.

pub mod collider;
pub mod error;
pub mod parse;
pub mod particle;
pub mod reduction;
pub mod soup;
pub mod term;
