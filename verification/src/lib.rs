//! Prover/verifier core of a GKR-style interactive argument for layered
//! arithmetic circuits with arbitrary (non-adjacent) wiring between layers.
//!
//! Layer 0 is the output layer; indices grow towards the inputs, and a
//! virtual input layer sits at index `layers.len()`. Each layer's claim is
//! reduced by a two-phase sumcheck to claims about downstream subsets, and
//! subset claims that target the same vector are folded into one claim by a
//! random linear combination and one further sumcheck.

pub mod field;
pub mod mle;
pub mod transcript;
pub mod util;
pub mod circuit;
pub mod circuit_builder;
pub mod engine;
pub mod sumcheck;
pub mod protocol;

pub use field::Fp;
