//! The structural representation of a module: types, instructions,
//! module fields, and small value wrappers.

pub mod instructions;
pub mod modules;
pub mod types;
pub mod values;
