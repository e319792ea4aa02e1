use crate::structure::instructions::{Expr, Instr};
use crate::structure::types::{
    FuncType, FuncTypeV, GlobalType, MemType, RefType, TableType, ValType,
};
use crate::structure::values::{Byte, Name};
use vstd::prelude::*;

verus! {

/// An index into a module's type table.
#[derive(Debug, Clone, Copy, PartialEq, Eq)]
pub struct TypeIdx(pub u32);

impl View for TypeIdx {
    type V = TypeIdx;

    open spec fn view(&self) -> TypeIdx {
        *self
    }
}

/// An index into the function space.
#[derive(Debug, Clone, Copy, PartialEq, Eq)]
pub struct FuncIdx(pub u32);

/// An index into the table space.
#[derive(Debug, Clone, Copy, PartialEq, Eq)]
pub struct TableIdx(pub u32);

/// An index into the memory space.
#[derive(Debug, Clone, Copy, PartialEq, Eq)]
pub struct MemIdx(pub u32);

/// An index into the global space.
#[derive(Debug, Clone, Copy, PartialEq, Eq)]
pub struct GlobalIdx(pub u32);

/// An index into the element-segment space.
#[derive(Debug, Clone, Copy, PartialEq, Eq)]
pub struct ElemIdx(pub u32);

/// An index into the data-segment space.
#[derive(Debug, Clone, Copy, PartialEq, Eq)]
pub struct DataIdx(pub u32);

/// An index into a frame's locals.
#[derive(Debug, Clone, Copy, PartialEq, Eq)]
pub struct LocalIdx(pub u32);

/// A label index, for control flow.
#[derive(Debug, Clone, Copy, PartialEq, Eq)]
pub struct LabelIdx(pub u32);

/// The mathematical content of a function: its declared type index, its
/// expanded local types, and its body.
#[verifier::ext_equal]
pub ghost struct FuncV {
    pub type_: TypeIdx,
    pub locals: Seq<ValType>,
    pub body: Seq<Instr>,
}

/// A function: a type index, the expanded sequence of declared local types,
/// and a body expression.
#[derive(Debug, Clone, PartialEq)]
pub struct Func {
    pub type_: TypeIdx,
    pub locals: Vec<ValType>,
    pub body: Expr,
}

impl View for Func {
    type V = FuncV;

    open spec fn view(&self) -> FuncV {
        FuncV { type_: self.type_, locals: self.locals@, body: self.body@ }
    }
}

/// A table.
#[derive(Debug, Clone, Copy, PartialEq, Eq)]
pub struct Table {
    pub type_: TableType,
}

/// A memory.
#[derive(Debug, Clone, Copy, PartialEq, Eq)]
pub struct Mem {
    pub type_: MemType,
}

/// The mathematical content of a global.
#[verifier::ext_equal]
pub ghost struct GlobalV {
    pub type_: GlobalType,
    pub init: Seq<Instr>,
}

/// A global: its type and its initializer expression.
#[derive(Debug, Clone, PartialEq)]
pub struct Global {
    pub type_: GlobalType,
    pub init: Expr,
}

impl View for Global {
    type V = GlobalV;

    open spec fn view(&self) -> GlobalV {
        GlobalV { type_: self.type_, init: self.init@ }
    }
}

/// How an element segment is used.
#[derive(Debug, Clone, Copy, PartialEq, Eq)]
pub enum ElemMode {
    Passive,
    Active,
    Declarative,
}

/// The mathematical content of an element segment.
#[verifier::ext_equal]
pub ghost struct ElemV {
    pub type_: RefType,
    pub init: Seq<Seq<Instr>>,
    pub mode: ElemMode,
}

/// An element segment.
#[derive(Debug, Clone, PartialEq)]
pub struct Elem {
    pub type_: RefType,
    pub init: Vec<Expr>,
    pub mode: ElemMode,
}

impl View for Elem {
    type V = ElemV;

    open spec fn view(&self) -> ElemV {
        ElemV {
            type_: self.type_,
            init: Seq::new(self.init@.len(), |i: int| self.init@[i]@),
            mode: self.mode,
        }
    }
}

/// How a data segment is used.
#[derive(Debug, Clone, Copy, PartialEq, Eq)]
pub enum DataMode {
    Passive,
    Active,
}

/// The mathematical content of a data segment.
#[verifier::ext_equal]
pub ghost struct DataV {
    pub init: Seq<u8>,
    pub mode: DataMode,
}

/// A data segment.
#[derive(Debug, Clone, PartialEq)]
pub struct Data {
    pub init: Vec<Byte>,
    pub mode: DataMode,
}

impl View for Data {
    type V = DataV;

    open spec fn view(&self) -> DataV {
        DataV { init: Seq::new(self.init@.len(), |i: int| self.init@[i]@), mode: self.mode }
    }
}

/// The start function, run at instantiation.
#[derive(Debug, Clone, Copy, PartialEq, Eq)]
pub struct Start {
    pub func: FuncIdx,
}

/// What an export refers to.
#[derive(Debug, Clone, Copy, PartialEq, Eq)]
pub enum ExportDesc {
    Func(FuncIdx),
    Table(TableIdx),
    Mem(MemIdx),
    Global(GlobalIdx),
}

/// The mathematical content of an export.
#[verifier::ext_equal]
pub ghost struct ExportV {
    pub name: Seq<char>,
    pub desc: ExportDesc,
}

/// A named, externally callable reference into the module.
#[derive(Debug, Clone, PartialEq)]
pub struct Export {
    pub name: Name,
    pub desc: ExportDesc,
}

impl View for Export {
    type V = ExportV;

    open spec fn view(&self) -> ExportV {
        ExportV { name: self.name@, desc: self.desc }
    }
}

/// What an import refers to.
#[derive(Debug, Clone, Copy, PartialEq, Eq)]
pub enum ImportDesc {
    Func(FuncIdx),
    Table(TableIdx),
    Mem(MemIdx),
    Global(GlobalIdx),
}

/// The mathematical content of an import.
#[verifier::ext_equal]
pub ghost struct ImportV {
    pub module: Seq<char>,
    pub name: Seq<char>,
    pub desc: ImportDesc,
}

/// An import: a module name, an item name, and a descriptor.
#[derive(Debug, Clone, PartialEq)]
pub struct Import {
    pub module: Name,
    pub name: Name,
    pub desc: ImportDesc,
}

impl View for Import {
    type V = ImportV;

    open spec fn view(&self) -> ImportV {
        ImportV { module: self.module@, name: self.name@, desc: self.desc }
    }
}

/// The mathematical content of a module.
#[verifier::ext_equal]
pub ghost struct ModuleV {
    pub types: Seq<FuncTypeV>,
    pub funcs: Seq<FuncV>,
    pub tables: Seq<Table>,
    pub mems: Seq<Mem>,
    pub globals: Seq<GlobalV>,
    pub elems: Seq<ElemV>,
    pub datas: Seq<DataV>,
    pub start: Option<Start>,
    pub imports: Seq<ImportV>,
    pub exports: Seq<ExportV>,
}

impl ModuleV {
    /// The module before any section has been decoded into it.
    pub open spec fn empty() -> ModuleV {
        ModuleV {
            types: Seq::empty(),
            funcs: Seq::empty(),
            tables: Seq::empty(),
            mems: Seq::empty(),
            globals: Seq::empty(),
            elems: Seq::empty(),
            datas: Seq::empty(),
            start: None,
            imports: Seq::empty(),
            exports: Seq::empty(),
        }
    }
}

/// A decoded module: the static program.
#[derive(Debug, Clone, PartialEq)]
pub struct Module {
    pub types: Vec<FuncType>,
    pub funcs: Vec<Func>,
    pub tables: Vec<Table>,
    pub mems: Vec<Mem>,
    pub globals: Vec<Global>,
    pub elems: Vec<Elem>,
    pub datas: Vec<Data>,
    pub start: Option<Start>,
    pub imports: Vec<Import>,
    pub exports: Vec<Export>,
}

impl View for Module {
    type V = ModuleV;

    open spec fn view(&self) -> ModuleV {
        ModuleV {
            types: Seq::new(self.types@.len(), |i: int| self.types@[i]@),
            funcs: Seq::new(self.funcs@.len(), |i: int| self.funcs@[i]@),
            tables: self.tables@,
            mems: self.mems@,
            globals: Seq::new(self.globals@.len(), |i: int| self.globals@[i]@),
            elems: Seq::new(self.elems@.len(), |i: int| self.elems@[i]@),
            datas: Seq::new(self.datas@.len(), |i: int| self.datas@[i]@),
            start: self.start,
            imports: Seq::new(self.imports@.len(), |i: int| self.imports@[i]@),
            exports: Seq::new(self.exports@.len(), |i: int| self.exports@[i]@),
        }
    }
}

impl Module {
    /// A module with no sections decoded into it yet.
    pub fn new() -> (m: Module)
        ensures
            m@ == ModuleV::empty(),
    {
        let m = Module {
            types: Vec::new(),
            funcs: Vec::new(),
            tables: Vec::new(),
            mems: Vec::new(),
            globals: Vec::new(),
            elems: Vec::new(),
            datas: Vec::new(),
            start: None,
            imports: Vec::new(),
            exports: Vec::new(),
        };
        proof {
            assert(m@.types =~= ModuleV::empty().types);
            assert(m@.funcs =~= ModuleV::empty().funcs);
            assert(m@.globals =~= ModuleV::empty().globals);
            assert(m@.elems =~= ModuleV::empty().elems);
            assert(m@.datas =~= ModuleV::empty().datas);
            assert(m@.imports =~= ModuleV::empty().imports);
            assert(m@.exports =~= ModuleV::empty().exports);
            assert(m@ =~= ModuleV::empty());
        }
        m
    }
}

} // verus!
