//! A miniature stack-based virtual machine for a WebAssembly-style binary
//! module format.
//!
//! The crate decodes a binary module into a structural representation
//! ([`structure`]), instantiates it into runtime state ([`execution`]),
//! and executes exported functions against caller-supplied arguments.
//! [`binary`] holds the format-specific decoders and [`leb128`] the
//! variable-length integer codec they rest on.

pub mod binary;
pub mod errors;
pub mod execution;
pub mod leb128;
pub mod structure;
