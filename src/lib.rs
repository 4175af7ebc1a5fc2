//! Compile-time planning for node-document decoders: classification of struct
//! fields into decoding roles, and tag derivation and diagnostics for scalar
//! enums.

pub mod definition;
pub mod diagnostic;
pub mod scalar;
