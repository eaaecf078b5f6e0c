//! An artificial chemistry of lambda-calculus terms: a population of terms
//! whose members collide in pairs, react through configured rules, and are
//! reduced under a bound on steps and size.

pub mod config;
pub mod lambda;
pub mod supercollider;
pub mod utils;
