//! A software implementation of the Grain-128 stream cipher: a key/IV-driven
//! keystream generator built from two coupled 128-cell shift registers with
//! nonlinear feedback, used to XOR-encrypt or XOR-decrypt byte streams.
//!
//! The behaviour of the executable engine is specified against the bit-level
//! mathematical model in [`model`]; [`laws`] proves the algebraic properties
//! that relate the public operations to one another.

pub mod cipher;
pub mod laws;
pub mod model;

pub use cipher::Grain128;
pub use cipher::GrainError;
