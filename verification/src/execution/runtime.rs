use crate::errors::{RuntimeError, WasmFault};
use crate::structure::instructions::Expr;
use crate::structure::modules::{Func, FuncV, Module, ModuleV};
use crate::structure::types::{FuncType, FuncTypeV, ResultType};
use vstd::prelude::*;

verus! {

/// Copy a vector of plain values.
pub fn copy_vec<T: Copy>(v: &Vec<T>) -> (r: Vec<T>)
    ensures
        r@ == v@,
{
    let mut out: Vec<T> = Vec::new();
    let mut i: usize = 0;
    while i < v.len()
        invariant
            i <= v@.len(),
            out@ == v@.take(i as int),
        decreases v@.len() - i,
    {
        out.push(v[i]);
        i = i + 1;
        proof {
            assert(out@ =~= v@.take(i as int));
        }
    }
    proof {
        assert(out@ =~= v@);
    }
    out
}

/// Copy a function type.
fn copy_func_type(ft: &FuncType) -> (r: FuncType)
    ensures
        r@ == ft@,
{
    FuncType(ResultType(copy_vec(&ft.0.0)), ResultType(copy_vec(&ft.1.0)))
}

/// Copy a function body and its locals.
fn copy_func(f: &Func) -> (r: Func)
    ensures
        r@ == f@,
{
    Func { type_: f.type_, locals: copy_vec(&f.locals), body: Expr(copy_vec(&f.body.0)) }
}

/// The mathematical content of a module instance.
#[verifier::ext_equal]
pub ghost struct ModuleInstV {
    pub types: Seq<FuncTypeV>,
    pub funcaddrs: Seq<int>,
    pub tableaddrs: Seq<int>,
    pub memaddrs: Seq<int>,
    pub globaladdrs: Seq<int>,
    pub elemaddrs: Seq<int>,
    pub dataaddrs: Seq<int>,
    pub exports: Seq<int>,
}

/// The runtime-linked view of one module: addresses into the store's
/// collections, its own type table and export table.
#[derive(Debug, Clone, PartialEq)]
pub struct ModuleInst {
    pub types: Vec<FuncType>,
    pub funcaddrs: Vec<usize>,
    pub tableaddrs: Vec<usize>,
    pub memaddrs: Vec<usize>,
    pub globaladdrs: Vec<usize>,
    pub elemaddrs: Vec<usize>,
    pub dataaddrs: Vec<usize>,
    pub exports: Vec<usize>,
}

impl View for ModuleInst {
    type V = ModuleInstV;

    open spec fn view(&self) -> ModuleInstV {
        ModuleInstV {
            types: Seq::new(self.types@.len(), |i: int| self.types@[i]@),
            funcaddrs: Seq::new(self.funcaddrs@.len(), |i: int| self.funcaddrs@[i] as int),
            tableaddrs: Seq::new(self.tableaddrs@.len(), |i: int| self.tableaddrs@[i] as int),
            memaddrs: Seq::new(self.memaddrs@.len(), |i: int| self.memaddrs@[i] as int),
            globaladdrs: Seq::new(self.globaladdrs@.len(), |i: int| self.globaladdrs@[i] as int),
            elemaddrs: Seq::new(self.elemaddrs@.len(), |i: int| self.elemaddrs@[i] as int),
            dataaddrs: Seq::new(self.dataaddrs@.len(), |i: int| self.dataaddrs@[i] as int),
            exports: Seq::new(self.exports@.len(), |i: int| self.exports@[i] as int),
        }
    }
}

impl ModuleInstV {
    /// The instance before linking.
    pub open spec fn empty() -> ModuleInstV {
        ModuleInstV {
            types: Seq::empty(),
            funcaddrs: Seq::empty(),
            tableaddrs: Seq::empty(),
            memaddrs: Seq::empty(),
            globaladdrs: Seq::empty(),
            elemaddrs: Seq::empty(),
            dataaddrs: Seq::empty(),
            exports: Seq::empty(),
        }
    }
}

/// The mathematical content of a function instance.
#[verifier::ext_equal]
pub ghost struct FuncInstV {
    pub type_: FuncTypeV,
    pub module: int,
    pub code: FuncV,
}

/// A function instance: its resolved type, the address of its owning module
/// instance in the store, and its code.
#[derive(Debug, Clone, PartialEq)]
pub struct FuncInst {
    pub type_: FuncType,
    pub module: usize,
    pub code: Func,
}

impl View for FuncInst {
    type V = FuncInstV;

    open spec fn view(&self) -> FuncInstV {
        FuncInstV { type_: self.type_@, module: self.module as int, code: self.code@ }
    }
}

/// A table instance. No supported instruction uses one.
#[derive(Debug, Clone, Copy, PartialEq)]
pub struct TableInst {}

/// A memory instance. No supported instruction uses one.
#[derive(Debug, Clone, Copy, PartialEq)]
pub struct MemInst {}

/// A global instance. No supported instruction uses one.
#[derive(Debug, Clone, Copy, PartialEq)]
pub struct GlobalInst {}

/// An element-segment instance. No supported instruction uses one.
#[derive(Debug, Clone, Copy, PartialEq)]
pub struct ElemInst {}

/// A data-segment instance. No supported instruction uses one.
#[derive(Debug, Clone, Copy, PartialEq)]
pub struct DataInst {}

/// The mathematical content of a store.
#[verifier::ext_equal]
pub ghost struct StoreV {
    pub funcs: Seq<FuncInstV>,
    pub tables: Seq<TableInst>,
    pub mems: Seq<MemInst>,
    pub globals: Seq<GlobalInst>,
    pub elems: Seq<ElemInst>,
    pub datas: Seq<DataInst>,
    pub modules: Seq<ModuleInstV>,
}

/// The store: the flat, append-only collections of all runtime instances.
/// An address is an index into the matching collection; instances are never
/// removed, so a valid address stays valid for the store's lifetime.
#[derive(Debug, Clone, PartialEq)]
pub struct Store {
    pub funcs: Vec<FuncInst>,
    pub tables: Vec<TableInst>,
    pub mems: Vec<MemInst>,
    pub globals: Vec<GlobalInst>,
    pub elems: Vec<ElemInst>,
    pub datas: Vec<DataInst>,
    pub modules: Vec<ModuleInst>,
}

impl View for Store {
    type V = StoreV;

    open spec fn view(&self) -> StoreV {
        StoreV {
            funcs: Seq::new(self.funcs@.len(), |i: int| self.funcs@[i]@),
            tables: self.tables@,
            mems: self.mems@,
            globals: self.globals@,
            elems: self.elems@,
            datas: self.datas@,
            modules: Seq::new(self.modules@.len(), |i: int| self.modules@[i]@),
        }
    }
}

/// The store `s` is the instantiation of module `m`: one function instance
/// per function, in order, its type resolved against the module's type
/// table, owned by the single fresh module instance at address 0, whose
/// function addresses are the positions themselves.
pub open spec fn store_instantiates(m: ModuleV, s: StoreV) -> bool {
    &&& s.funcs.len() == m.funcs.len()
    &&& (forall|i: int|
        0 <= i < m.funcs.len() ==> {
            &&& 0 <= m.funcs[i].type_.0 < m.types.len()
            &&& (#[trigger] s.funcs[i]).type_ == m.types[m.funcs[i].type_.0 as int]
            &&& s.funcs[i].module == 0
            &&& s.funcs[i].code == m.funcs[i]
        })
    &&& s.modules.len() == 1
    &&& s.modules[0] == (ModuleInstV {
        funcaddrs: Seq::new(m.funcs.len(), |i: int| i),
        ..ModuleInstV::empty()
    })
    &&& s.tables.len() == 0
    &&& s.mems.len() == 0
    &&& s.globals.len() == 0
    &&& s.elems.len() == 0
    &&& s.datas.len() == 0
}

impl Store {
    /// Instantiate a module: resolve each function's declared type index
    /// against the module's type table and build its function instance,
    /// failing exactly when some declared type index is out of range.
    pub fn new(module: &Module) -> (r: Result<Store, RuntimeError>)
        ensures
            (r matches Ok(s) ==> store_instantiates(module@, s@)),
            r.is_ok() <==> (forall|i: int|
                0 <= i < module@.funcs.len() ==> 0 <= (#[trigger] module@.funcs[i]).type_.0
                    < module@.types.len()),
            (r matches Err(e) ==> e == RuntimeError::InvalidWasmError(WasmFault::UnknownFuncType)),
    {
        let mut store = Store {
            funcs: Vec::new(),
            tables: Vec::new(),
            mems: Vec::new(),
            globals: Vec::new(),
            elems: Vec::new(),
            datas: Vec::new(),
            modules: Vec::new(),
        };
        let mut moduleinst = ModuleInst {
            types: Vec::new(),
            funcaddrs: Vec::new(),
            tableaddrs: Vec::new(),
            memaddrs: Vec::new(),
            globaladdrs: Vec::new(),
            elemaddrs: Vec::new(),
            dataaddrs: Vec::new(),
            exports: Vec::new(),
        };
        let mut i: usize = 0;
        while i < module.funcs.len()
            invariant
                i <= module@.funcs.len(),
                store.funcs@.len() == i,
                moduleinst.funcaddrs@.len() == i,
                forall|j: int|
                    0 <= j < i ==> {
                        &&& 0 <= (#[trigger] module@.funcs[j]).type_.0 < module@.types.len()
                        &&& store.funcs@[j]@.type_ == module@.types[module@.funcs[j].type_.0 as int]
                        &&& store.funcs@[j]@.module == 0
                        &&& store.funcs@[j]@.code == module@.funcs[j]
                        &&& moduleinst.funcaddrs@[j] == j
                    },
                forall|j: int| 0 <= j < i ==> #[trigger] moduleinst.funcaddrs@[j] == j,
                moduleinst.types@.len() == 0,
                moduleinst.tableaddrs@.len() == 0,
                moduleinst.memaddrs@.len() == 0,
                moduleinst.globaladdrs@.len() == 0,
                moduleinst.elemaddrs@.len() == 0,
                moduleinst.dataaddrs@.len() == 0,
                moduleinst.exports@.len() == 0,
                store.tables@.len() == 0,
                store.mems@.len() == 0,
                store.globals@.len() == 0,
                store.elems@.len() == 0,
                store.datas@.len() == 0,
                store.modules@.len() == 0,
            decreases module@.funcs.len() - i,
        {
            let f = &module.funcs[i];
            let ti = f.type_.0;
            if ti as usize >= module.types.len() {
                proof {
                    assert(module@.funcs[i as int].type_.0 == ti);
                    assert(!(0 <= module@.funcs[i as int].type_.0 < module@.types.len()));
                }
                return Err(RuntimeError::InvalidWasmError(WasmFault::UnknownFuncType));
            }
            let functype = copy_func_type(&module.types[ti as usize]);
            moduleinst.funcaddrs.push(i);
            store.funcs.push(FuncInst { type_: functype, module: 0, code: copy_func(f) });
            i = i + 1;
        }
        store.modules.push(moduleinst);
        proof {
            assert(store@.modules[0].funcaddrs =~= Seq::new(module@.funcs.len(), |i: int| i));
            assert(store@.modules[0] =~= (ModuleInstV {
                funcaddrs: Seq::new(module@.funcs.len(), |i: int| i),
                ..ModuleInstV::empty()
            }));
            assert(store_instantiates(module@, store@));
        }
        Ok(store)
    }
}

} // verus!
