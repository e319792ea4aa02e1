use crate::errors::{CallFault, RuntimeError};
use crate::execution::instructions::run_body;
use crate::execution::runtime::{Store, StoreV};
use crate::execution::stack::{Frame, FrameStack, LabelStack, Val, ValueStack};
use crate::structure::modules::{ExportDesc, ExportV, Module, ModuleV};
use vstd::prelude::*;

verus! {

/// The index of the first export named `name`, if any.
pub open spec fn find_export(exports: Seq<ExportV>, name: Seq<char>) -> Option<int>
    decreases exports.len(),
{
    if exports.len() == 0 {
        None
    } else if exports[0].name == name {
        Some(0)
    } else {
        match find_export(exports.drop_first(), name) {
            Some(i) => Some(i + 1),
            None => None,
        }
    }
}

/// `find_export` scans front to back: if the first `k` names differ, the
/// answer is the answer on the rest, shifted.
proof fn lemma_find_export_unroll(exports: Seq<ExportV>, name: Seq<char>, k: int)
    requires
        0 <= k <= exports.len(),
        forall|j: int| 0 <= j < k ==> (#[trigger] exports[j]).name != name,
    ensures
        find_export(exports, name) == match find_export(exports.skip(k), name) {
            Some(i) => Some(i + k),
            None => None::<int>,
        },
    decreases k,
{
    if k == 0 {
        assert(exports.skip(0) =~= exports);
    } else {
        assert(exports[0].name != name);
        lemma_find_export_unroll(exports.drop_first(), name, k - 1);
        assert(exports.drop_first().skip(k - 1) =~= exports.skip(k));
        assert(forall|j: int|
            0 <= j < k - 1 ==> (#[trigger] exports.drop_first()[j]).name == exports[j + 1].name);
    }
}

/// `find_export` finds a matching name.
pub proof fn lemma_find_export_found(exports: Seq<ExportV>, name: Seq<char>, k: int)
    requires
        0 <= k < exports.len(),
        exports[k].name == name,
        forall|j: int| 0 <= j < k ==> (#[trigger] exports[j]).name != name,
    ensures
        find_export(exports, name) == Some(k),
{
    lemma_find_export_unroll(exports, name, k);
    assert(exports.skip(k)[0] == exports[k]);
}

/// `find_export` fails when no name matches.
pub proof fn lemma_find_export_none(exports: Seq<ExportV>, name: Seq<char>)
    requires
        forall|j: int| 0 <= j < exports.len() ==> (#[trigger] exports[j]).name != name,
    ensures
        find_export(exports, name) == None::<int>,
{
    lemma_find_export_unroll(exports, name, exports.len() as int);
    assert(exports.skip(exports.len() as int) =~= Seq::<ExportV>::empty());
}

/// What invoking export `name` of module `m` in store `s` with arguments
/// `args` yields: the export must exist, be a function export, resolve in
/// the store, and match the argument count; the body then runs on a fresh
/// stack holding the arguments, and the call returns as many values as the
/// function's result count, popped off the final stack in stack order.
pub open spec fn spec_call(m: ModuleV, s: StoreV, name: Seq<char>, args: Seq<Val>) -> Result<
    Seq<Val>,
    RuntimeError,
> {
    match find_export(m.exports, name) {
        None => Err(RuntimeError::InvalidParameters(CallFault::UnknownFunction)),
        Some(i) => match m.exports[i].desc {
            ExportDesc::Func(fa) => {
                if fa.0 >= s.funcs.len() {
                    Err(RuntimeError::InvalidParameters(CallFault::UnknownFuncAddr))
                } else {
                    let fi = s.funcs[fa.0 as int];
                    if args.len() != fi.type_.params.len() {
                        Err(RuntimeError::InvalidParameters(CallFault::Arity))
                    } else {
                        let locals0 = args + Seq::new(fi.code.locals.len(), |j: int| Val::I32(0));
                        let run = run_body(fi.code.body, locals0, args.take(0));
                        match run.0 {
                            Err(e) => Err(e),
                            Ok(u) => {
                                let sf = run.2;
                                let rc = fi.type_.results.len();
                                if sf.len() < rc {
                                    Err(RuntimeError::InvalidParameters(CallFault::MissingResult))
                                } else {
                                    Ok(Seq::new(rc, |j: int| sf[sf.len() - 1 - j]))
                                }
                            },
                        }
                    }
                }
            },
            _ => Err(RuntimeError::InvalidParameters(CallFault::NotAFunction)),
        },
    }
}

impl Module {
    /// The position of the first export carrying exactly `name`.
    fn find_export_index(&self, name: &String) -> (r: Option<usize>)
        ensures
            (r matches Some(i) ==> i < self@.exports.len() && find_export(self@.exports, name@)
                == Some(i as int)),
            (r is None ==> find_export(self@.exports, name@) is None),
    {
        let nexports = self.exports.len();
        let mut ei: usize = 0;
        while ei < nexports
            invariant
                nexports == self.exports@.len(),
                ei <= nexports,
                forall|j: int| 0 <= j < ei ==> (#[trigger] self@.exports[j]).name != name@,
            decreases nexports - ei,
        {
            if self.exports[ei].name.0 == *name {
                proof {
                    assert(self@.exports[ei as int].name == name@);
                    lemma_find_export_found(self@.exports, name@, ei as int);
                }
                return Some(ei);
            }
            proof {
                assert(self@.exports[ei as int].name != name@);
            }
            ei = ei + 1;
        }
        proof {
            lemma_find_export_none(self@.exports, name@);
        }
        None
    }

    /// Invoke the export named `name` with `args`: look the export up by
    /// exact name, resolve its function in the store, check the arity, run
    /// the function on a fresh value stack above a dummy bottom frame, and
    /// return the function's results, popped in stack order.
    #[verifier::loop_isolation(false)]
    pub fn call(&self, store: Store, name: &String, args: Vec<Val>) -> (r: Result<
        Vec<Val>,
        RuntimeError,
    >)
        ensures
            (r matches Ok(vs) ==> spec_call(self@, store@, name@, args@) == Ok::<
                Seq<Val>,
                RuntimeError,
            >(vs@)),
            (r matches Err(e) ==> spec_call(self@, store@, name@, args@) == Err::<
                Seq<Val>,
                RuntimeError,
            >(e)),
    {
        let ghost mv = self@;
        let ei = match self.find_export_index(name) {
            Some(i) => i,
            None => {
                return Err(RuntimeError::InvalidParameters(CallFault::UnknownFunction));
            },
        };
        let funcaddr = match self.exports[ei].desc {
            ExportDesc::Func(x) => x,
            _ => {
                return Err(RuntimeError::InvalidParameters(CallFault::NotAFunction));
            },
        };
        if funcaddr.0 as usize >= store.funcs.len() {
            return Err(RuntimeError::InvalidParameters(CallFault::UnknownFuncAddr));
        }
        let funcinst = &store.funcs[funcaddr.0 as usize];
        if args.len() != funcinst.type_.0.0.len() {
            return Err(RuntimeError::InvalidParameters(CallFault::Arity));
        }
        let mut frame_stack = FrameStack(Vec::new());
        let mut value_stack = ValueStack(Vec::new());
        // a dummy bottom frame stands in for the outside execution context
        frame_stack.push(Frame { locals: Vec::new(), module: 0, labels: LabelStack(Vec::new()) });
        let nargs = args.len();
        let mut ai: usize = 0;
        proof {
            assert(value_stack@ =~= Seq::<Val>::empty());
        }
        while ai < nargs
            invariant
                nargs == args@.len(),
                ai <= nargs,
                value_stack@ == args@.take(ai as int),
            decreases nargs - ai,
        {
            value_stack.push(args[ai]);
            ai = ai + 1;
            proof {
                assert(value_stack@ =~= args@.take(ai as int));
            }
        }
        proof {
            assert(value_stack@ =~= args@);
        }
        let ghost pre_call = value_stack@;
        let ghost fiv = store@.funcs[funcaddr.0 as int];
        proof {
            assert(fiv == funcinst@);
            assert(args@.len() == fiv.type_.params.len());
            assert(pre_call.subrange(
                pre_call.len() - fiv.type_.params.len(),
                pre_call.len() as int,
            ) =~= args@);
            assert(pre_call.take(pre_call.len() - fiv.type_.params.len()) =~= args@.take(0));
        }
        match funcinst.call(&mut value_stack, &mut frame_stack) {
            Ok(u) => {},
            Err(e) => {
                proof {
                    lemma_call_state(mv, store@, name@, args@, ei as int, funcaddr.0 as int);
                    let locals0 = args@ + Seq::new(fiv.code.locals.len(), |j: int| Val::I32(0));
                    assert(run_body(fiv.code.body, locals0, args@.take(0)).0 == Err::<
                        (),
                        RuntimeError,
                    >(e));
                }
                return Err(e);
            },
        }
        proof {
            lemma_call_state(mv, store@, name@, args@, ei as int, funcaddr.0 as int);
        }
        let ghost sf = value_stack@;
        proof {
            let locals0 = args@ + Seq::new(fiv.code.locals.len(), |j: int| Val::I32(0));
            assert(run_body(fiv.code.body, locals0, args@.take(0)).0 == Ok::<(), RuntimeError>(()));
            assert(run_body(fiv.code.body, locals0, args@.take(0)).2 == sf);
        }
        let rc = funcinst.type_.1.0.len();
        let mut results: Vec<Val> = Vec::new();
        let mut ri: usize = 0;
        while ri < rc
            invariant
                ri <= rc,
                results@.len() == ri,
                ri <= sf.len(),
                forall|j: int| 0 <= j < ri ==> results@[j] == sf[sf.len() - 1 - j],
                value_stack@ == sf.take(sf.len() - ri),
            decreases rc - ri,
        {
            match value_stack.pop() {
                Some(t) => {
                    results.push(t);
                    proof {
                        assert(value_stack@ =~= sf.take(sf.len() - (ri + 1)));
                    }
                },
                None => {
                    proof {
                        assert(sf.take(sf.len() - ri).len() == 0);
                        assert(sf.len() == ri);
                    }
                    return Err(RuntimeError::InvalidParameters(CallFault::MissingResult));
                },
            }
            ri = ri + 1;
        }
        proof {
            assert(results@ =~= Seq::new(rc as nat, |j: int| sf[sf.len() - 1 - j]));
        }
        Ok(results)
    }
}

/// Unfolds `spec_call` down to the body run, once the export lookup, the
/// descriptor, the address and the arity have all succeeded.
proof fn lemma_call_state(m: ModuleV, s: StoreV, name: Seq<char>, args: Seq<Val>, ei: int, fa: int)
    requires
        find_export(m.exports, name) == Some(ei),
        0 <= ei < m.exports.len(),
        m.exports[ei].desc matches ExportDesc::Func(x) && x.0 == fa,
        0 <= fa < s.funcs.len(),
        args.len() == s.funcs[fa].type_.params.len(),
    ensures
        ({
            let fi = s.funcs[fa];
            let locals0 = args + Seq::new(fi.code.locals.len(), |j: int| Val::I32(0));
            let run = run_body(fi.code.body, locals0, args.take(0));
            spec_call(m, s, name, args) == match run.0 {
                Err(e) => Err::<Seq<Val>, RuntimeError>(e),
                Ok(u) => {
                    let sf = run.2;
                    let rc = fi.type_.results.len();
                    if sf.len() < rc {
                        Err::<Seq<Val>, RuntimeError>(
                            RuntimeError::InvalidParameters(CallFault::MissingResult),
                        )
                    } else {
                        Ok::<Seq<Val>, RuntimeError>(Seq::new(rc, |j: int| sf[sf.len() - 1 - j]))
                    }
                },
            }
        }),
{
}

} // verus!
