//! A small stack virtual machine whose executions are recorded as a trace
//! table, checked against algebraic constraints, extended to a larger
//! evaluation domain and committed to in a proof artifact.
//!
//! - `field`: arithmetic modulo `2^64 - 2^32 + 1`.
//! - `hash`: an algebraic sponge over the field.
//! - `vm`: the instruction set and its effect on a register row.
//! - `trace`: padding, the raw trace and its low-degree extension.
//! - `constraints`: transition and boundary residuals on trace rows.
//! - `air`: the constraints as polynomial relations, with instruction columns.
//! - `poly`: evaluation, interpolation and extension of columns.
//! - `merkle`: vector commitments.
//! - `prover`: the proof engine.
//! - `processor`: the execution orchestrator.
//! - `codec`: the binary layout of a proof artifact.
pub mod field;
pub mod hash;
pub mod vm;
pub mod error;
pub mod trace;
pub mod constraints;
pub mod air;
pub mod poly;
pub mod merkle;
pub mod prover;
pub mod processor;
pub mod codec;
