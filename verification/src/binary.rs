//! The binary module format: a generic decode capability, the decoders for
//! each structural node, and the top-level module parser.

pub mod conventions;
pub mod decoder;
pub mod modules;
pub mod instructions;
pub mod types;
pub mod values;
