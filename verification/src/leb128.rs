//! LEB128 variable-length integer decoding.

pub mod decode;
