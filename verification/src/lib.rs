//! Arithmetization core for a circle-STARK proving pipeline: a fixed-width,
//! power-of-two-row matrix of prime-field elements addressed by named column
//! groups, a deterministic preprocessed-trace generator, the reordering of
//! columns into the circle-domain evaluation order, a pluggable chip interface
//! for lookup-argument interaction traces, and the strictly ordered
//! commit/constraint-check protocol that binds them together.

#![verifier::loop_isolation(false)]

pub mod chip;
pub mod column;
pub mod constraint;
pub mod error;
pub mod field;
pub mod pipeline;
pub mod reorder;
pub mod trace;
