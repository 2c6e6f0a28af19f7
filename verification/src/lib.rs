//! Verification of KZG-based proofs, natively and inside another proof.
//!
//! The arithmetic of a verifier is written once, over values that belong to
//! an execution context: plain field elements and points, or handles to the
//! wires of a circuit. On top of it stand a Fiat–Shamir transcript, the
//! succinct verification of an opening, which defers its pairing check into
//! an accumulator, and the folding of many accumulators into one.

pub mod accumulation;
pub mod aggregation;
pub mod blake2b;
pub mod bn256;
pub mod bytes;
pub mod curve;
pub mod decider;
pub mod error;
pub mod field;
pub mod kzg;
pub mod limbs;
pub mod loader;
pub mod native;
pub mod transcript;
