//! The execution engine: runtime values and stacks, the store of runtime
//! instances, and the instruction interpreter.

pub mod instructions;
pub mod modules;
pub mod runtime;
pub mod stack;
