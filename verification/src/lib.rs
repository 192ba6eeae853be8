//! Core of a JSON request/response command server: the typed request and
//! response model, the command dispatcher with recursive batch evaluation,
//! and the per-command performance-metrics aggregator.
//!
//! The byte-stream boundary (socket handling, JSON text framing) lives
//! outside this crate; it hands the library an already-structured JSON
//! document and forwards the structured response unchanged.

mod clock;
pub mod codec;
pub mod commands;
pub mod ids;
pub mod json;
pub mod laws;
pub mod metrics;
pub mod types;
