use crate::structure::modules::LocalIdx;
use vstd::prelude::*;

verus! {

/// An expression: an ordered sequence of instructions. The end marker that
/// terminates an encoded expression is consumed during decode, not stored.
#[derive(Debug, Clone, PartialEq)]
pub struct Expr(pub Vec<Instr>);

impl View for Expr {
    type V = Seq<Instr>;

    open spec fn view(&self) -> Seq<Instr> {
        self.0@
    }
}

/// The closed set of supported instructions. The 32-bit and 64-bit
/// floating-point constants carry their bit patterns, so that no
/// floating-point arithmetic is ever performed on them.
#[derive(Debug, Clone, Copy, PartialEq)]
pub enum Instr {
    I32Const(i32),
    I64Const(i64),
    F32Const(u32),
    F64Const(u64),
    I32Add,
    I32Sub,
    I32Mul,
    LocalGet(LocalIdx),
    LocalSet(LocalIdx),
}

} // verus!
