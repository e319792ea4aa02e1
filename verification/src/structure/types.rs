use vstd::prelude::*;

verus! {

/// A number type tag.
#[derive(Debug, Clone, Copy, PartialEq, Eq)]
pub enum NumType {
    I32,
    I64,
    F32,
    F64,
}

/// A reference type tag.
#[derive(Debug, Clone, Copy, PartialEq, Eq)]
pub enum RefType {
    FuncRef,
    ExternRef,
}

/// A value type: a number type or a reference type.
#[derive(Debug, Clone, Copy, PartialEq, Eq)]
pub enum ValType {
    NumType(NumType),
    RefType(RefType),
}

impl View for ValType {
    type V = ValType;

    open spec fn view(&self) -> ValType {
        *self
    }
}

/// An ordered sequence of value types.
#[derive(Debug, Clone, PartialEq)]
pub struct ResultType(pub Vec<ValType>);

impl View for ResultType {
    type V = Seq<ValType>;

    open spec fn view(&self) -> Seq<ValType> {
        self.0@
    }
}

/// The mathematical content of a function type: its parameter and result
/// type sequences.
#[verifier::ext_equal]
pub ghost struct FuncTypeV {
    pub params: Seq<ValType>,
    pub results: Seq<ValType>,
}

/// A function type: parameter types and result types.
#[derive(Debug, Clone, PartialEq)]
pub struct FuncType(pub ResultType, pub ResultType);

impl View for FuncType {
    type V = FuncTypeV;

    open spec fn view(&self) -> FuncTypeV {
        FuncTypeV { params: self.0@, results: self.1@ }
    }
}

/// Size bounds for a table or memory.
#[derive(Debug, Clone, Copy, PartialEq, Eq)]
pub struct Limits {
    pub min: u32,
    pub max: Option<u32>,
}

/// A memory type.
#[derive(Debug, Clone, Copy, PartialEq, Eq)]
pub struct MemType(pub Limits);

/// A table type.
#[derive(Debug, Clone, Copy, PartialEq, Eq)]
pub struct TableType(pub Limits, pub RefType);

/// A global's type: its mutability and its value type.
#[derive(Debug, Clone, Copy, PartialEq, Eq)]
pub struct GlobalType(pub Mut, pub ValType);

/// Whether a global may be written.
#[derive(Debug, Clone, Copy, PartialEq, Eq)]
pub enum Mut {
    Const,
    Var,
}

} // verus!
