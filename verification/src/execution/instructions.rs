use crate::errors::{CallFault, RuntimeError, WasmFault};
use crate::execution::runtime::{copy_vec, FuncInst};
use crate::execution::stack::{Frame, FrameStack, LabelStack, Val, ValueStack};
use crate::structure::instructions::Instr;
use crate::structure::modules::LocalIdx;
use vstd::prelude::*;

verus! {

/// Popping one 32-bit integer operand: the value or the fault, and the
/// stack afterwards. The pop consumes the top value even when its kind is
/// wrong.
pub open spec fn spec_i32_pop(s: Seq<Val>) -> (Result<i32, RuntimeError>, Seq<Val>) {
    if s.len() == 0 {
        (Err(RuntimeError::InvalidWasmError(WasmFault::NoOperand)), s)
    } else {
        match s.last() {
            Val::I32(a) => (Ok(a), s.drop_last()),
            _ => (Err(RuntimeError::InvalidWasmError(WasmFault::OperandType)), s.drop_last()),
        }
    }
}

/// One instruction's effect: the result, then the locals and the value
/// stack afterwards. On an error the state is the one in which execution
/// stopped. The arithmetic wraps, as 32-bit integer arithmetic does.
pub open spec fn step_instr(i: Instr, locals: Seq<Val>, stack: Seq<Val>) -> (
    Result<(), RuntimeError>,
    Seq<Val>,
    Seq<Val>,
) {
    match i {
        Instr::I32Const(n) => (Ok(()), locals, stack.push(Val::I32(n))),
        Instr::I64Const(n) => (Ok(()), locals, stack.push(Val::I64(n))),
        Instr::F32Const(b) => (Ok(()), locals, stack.push(Val::F32(b))),
        Instr::F64Const(b) => (Ok(()), locals, stack.push(Val::F64(b))),
        Instr::I32Add => step_arith(locals, stack, 0),
        Instr::I32Sub => step_arith(locals, stack, 1),
        Instr::I32Mul => step_arith(locals, stack, 2),
        Instr::LocalGet(idx) => {
            if idx.0 < locals.len() {
                (Ok(()), locals, stack.push(locals[idx.0 as int]))
            } else {
                (Err(RuntimeError::InvalidWasmError(WasmFault::InvalidLocals)), locals, stack)
            }
        },
        Instr::LocalSet(idx) => {
            if stack.len() == 0 {
                (Err(RuntimeError::InvalidWasmError(WasmFault::EmptyStack)), locals, stack)
            } else if idx.0 < locals.len() {
                (Ok(()), locals.update(idx.0 as int, stack.last()), stack.drop_last())
            } else {
                (
                    Err(RuntimeError::InvalidWasmError(WasmFault::InvalidLocals)),
                    locals,
                    stack.drop_last(),
                )
            }
        },
    }
}

/// A two-operand 32-bit integer instruction: pop the right operand, pop the
/// left one, push the wrapped result. `op` selects add, subtract or
/// multiply.
pub open spec fn step_arith(locals: Seq<Val>, stack: Seq<Val>, op: int) -> (
    Result<(), RuntimeError>,
    Seq<Val>,
    Seq<Val>,
) {
    let (r2, s2) = spec_i32_pop(stack);
    match r2 {
        Err(e) => (Err(e), locals, s2),
        Ok(a2) => {
            let (r1, s1) = spec_i32_pop(s2);
            match r1 {
                Err(e) => (Err(e), locals, s1),
                Ok(a1) => {
                    let v = if op == 0 {
                        a1.wrapping_add(a2)
                    } else if op == 1 {
                        a1.wrapping_sub(a2)
                    } else {
                        a1.wrapping_mul(a2)
                    };
                    (Ok(()), locals, s1.push(Val::I32(v)))
                },
            }
        },
    }
}

/// Executing a body in order: the result, then the locals and stack after
/// the last instruction that ran.
pub open spec fn run_body(body: Seq<Instr>, locals: Seq<Val>, stack: Seq<Val>) -> (
    Result<(), RuntimeError>,
    Seq<Val>,
    Seq<Val>,
)
    decreases body.len(),
{
    if body.len() == 0 {
        (Ok(()), locals, stack)
    } else {
        let (r, l1, s1) = step_instr(body[0], locals, stack);
        match r {
            Ok(u) => run_body(body.drop_first(), l1, s1),
            Err(e) => (Err(e), l1, s1),
        }
    }
}

/// A local-get whose index is at or beyond the local count stops execution
/// with the invalid-locals condition and changes neither the locals nor the
/// value stack.
pub proof fn lemma_local_get_out_of_range(idx: LocalIdx, locals: Seq<Val>, stack: Seq<Val>)
    requires
        idx.0 >= locals.len(),
    ensures
        step_instr(Instr::LocalGet(idx), locals, stack) == (
            Err::<(), RuntimeError>(RuntimeError::InvalidWasmError(WasmFault::InvalidLocals)),
            locals,
            stack,
        ),
{
}

/// A local-set or a two-operand arithmetic instruction run against an empty
/// value stack stops with its stack-underflow condition — empty-stack for
/// local-set, no-operand for the arithmetic — leaving the locals unchanged
/// and the stack empty.
pub proof fn lemma_stack_underflow(instr: Instr, locals: Seq<Val>)
    requires
        instr is LocalSet || instr is I32Add || instr is I32Sub || instr is I32Mul,
    ensures
        step_instr(instr, locals, Seq::empty()).1 == locals,
        step_instr(instr, locals, Seq::empty()).2 == Seq::<Val>::empty(),
        instr is LocalSet ==> step_instr(instr, locals, Seq::empty()).0 == Err::<
            (),
            RuntimeError,
        >(RuntimeError::InvalidWasmError(WasmFault::EmptyStack)),
        !(instr is LocalSet) ==> step_instr(instr, locals, Seq::empty()).0 == Err::<
            (),
            RuntimeError,
        >(RuntimeError::InvalidWasmError(WasmFault::NoOperand)),
{
}

/// Pop one 32-bit integer operand off the value stack.
fn i32_pop(stack: &mut ValueStack) -> (r: Result<i32, RuntimeError>)
    ensures
        ({
            let (rr, s1) = spec_i32_pop(old(stack)@);
            r == rr && final(stack)@ == s1
        }),
{
    match stack.pop() {
        None => Err(RuntimeError::InvalidWasmError(WasmFault::NoOperand)),
        Some(Val::I32(n)) => Ok(n),
        Some(_) => Err(RuntimeError::InvalidWasmError(WasmFault::OperandType)),
    }
}

impl FuncInst {
    /// Run one instruction against the locals and the shared value stack.
    fn invoke(&self, instr: &Instr, locals: &mut Vec<Val>, stack: &mut ValueStack) -> (r: Result<
        (),
        RuntimeError,
    >)
        ensures
            ({
                let (rr, l1, s1) = step_instr(*instr, old(locals)@, old(stack)@);
                r == rr && final(locals)@ == l1 && final(stack)@ == s1
            }),
    {
        match instr {
            Instr::I32Const(num) => {
                stack.push(Val::I32(*num));
                Ok(())
            },
            Instr::I64Const(num) => {
                stack.push(Val::I64(*num));
                Ok(())
            },
            Instr::F32Const(bits) => {
                stack.push(Val::F32(*bits));
                Ok(())
            },
            Instr::F64Const(bits) => {
                stack.push(Val::F64(*bits));
                Ok(())
            },
            Instr::I32Add => {
                let a2 = match i32_pop(stack) {
                    Ok(a) => a,
                    Err(e) => {
                        return Err(e);
                    },
                };
                let a1 = match i32_pop(stack) {
                    Ok(a) => a,
                    Err(e) => {
                        return Err(e);
                    },
                };
                stack.push(Val::I32(a1.wrapping_add(a2)));
                Ok(())
            },
            Instr::I32Sub => {
                let a2 = match i32_pop(stack) {
                    Ok(a) => a,
                    Err(e) => {
                        return Err(e);
                    },
                };
                let a1 = match i32_pop(stack) {
                    Ok(a) => a,
                    Err(e) => {
                        return Err(e);
                    },
                };
                stack.push(Val::I32(a1.wrapping_sub(a2)));
                Ok(())
            },
            Instr::I32Mul => {
                let a2 = match i32_pop(stack) {
                    Ok(a) => a,
                    Err(e) => {
                        return Err(e);
                    },
                };
                let a1 = match i32_pop(stack) {
                    Ok(a) => a,
                    Err(e) => {
                        return Err(e);
                    },
                };
                stack.push(Val::I32(a1.wrapping_mul(a2)));
                Ok(())
            },
            Instr::LocalGet(idx) => {
                let i = idx.0 as usize;
                if i < locals.len() {
                    stack.push(locals[i]);
                    Ok(())
                } else {
                    Err(RuntimeError::InvalidWasmError(WasmFault::InvalidLocals))
                }
            },
            Instr::LocalSet(idx) => {
                let v = match stack.pop() {
                    Some(v) => v,
                    None => {
                        return Err(RuntimeError::InvalidWasmError(WasmFault::EmptyStack));
                    },
                };
                let i = idx.0 as usize;
                if i < locals.len() {
                    locals[i] = v;
                    proof {
                        assert(locals@ =~= old(locals)@.update(i as int, v));
                    }
                    Ok(())
                } else {
                    Err(RuntimeError::InvalidWasmError(WasmFault::InvalidLocals))
                }
            },
        }
    }

    /// Call this function instance against the shared stacks: pop its
    /// arguments, zero-initialize its declared locals as 32-bit integers,
    /// push a frame, then run the body in order. The frame is popped again
    /// before the call returns, whether the body ran to its end or stopped
    /// on an error, so the frame stack leaves as it came. The results, if
    /// any, are left on the value stack.
    #[verifier::loop_isolation(false)]
    pub fn call(&self, value_stack: &mut ValueStack, frame_stack: &mut FrameStack) -> (r: Result<
        (),
        RuntimeError,
    >)
        ensures
            old(value_stack)@.len() < self.type_@.params.len() ==> r == Err::<(), RuntimeError>(
                RuntimeError::InvalidParameters(CallFault::MissingResult),
            ) && final(value_stack)@.len() == 0 && final(frame_stack)@ == old(frame_stack)@,
            old(value_stack)@.len() >= self.type_@.params.len() ==> ({
                let pc = self.type_@.params.len();
                let slen = old(value_stack)@.len();
                let args = old(value_stack)@.subrange(slen - pc, slen as int);
                let locals0 = args + Seq::new(self.code@.locals.len(), |i: int| Val::I32(0));
                let (rr, lf, sf) = run_body(self.code@.body, locals0, old(value_stack)@.take(
                    slen - pc,
                ));
                r == rr && final(value_stack)@ == sf && final(frame_stack)@ == old(frame_stack)@
            }),
    {
        let pc = self.type_.0.0.len();
        let ghost s0 = value_stack@;
        let mut popped: Vec<Val> = Vec::new();
        let mut i: usize = 0;
        while i < pc
            invariant
                i <= pc,
                pc == self.type_@.params.len(),
                s0 == old(value_stack)@,
                popped@.len() == i,
                i <= s0.len(),
                forall|j: int| 0 <= j < i ==> popped@[j] == s0[s0.len() - 1 - j],
                value_stack@ == s0.take(s0.len() - i),
            decreases pc - i,
        {
            match value_stack.pop() {
                Some(v) => {
                    popped.push(v);
                    proof {
                        assert(value_stack@ =~= s0.take(s0.len() - (i + 1)));
                    }
                },
                None => {
                    // too few operands for the parameters: the stack is
                    // drained and the call fails
                    proof {
                        assert(s0.take(s0.len() - i).len() == 0);
                        assert(s0.len() == i);
                        assert(value_stack@ =~= Seq::<Val>::empty());
                    }
                    return Err(
                        RuntimeError::InvalidParameters(CallFault::MissingResult),
                    );
                },
            }
            i = i + 1;
        }
        let ghost pci = pc as int;
        let ghost args = s0.subrange(s0.len() - pci, s0.len() as int);
        // the arguments were popped last-first; rebuild them in order
        let mut locals: Vec<Val> = Vec::new();
        let mut k: usize = popped.len();
        while k > 0
            invariant
                k <= popped@.len(),
                popped@.len() == pci,
                pci <= s0.len(),
                forall|j: int| 0 <= j < pci ==> popped@[j] == s0[s0.len() - 1 - j],
                locals@.len() == pci - k,
                forall|j: int| 0 <= j < pci - k ==> locals@[j] == s0[s0.len() - pci + j],
            decreases k,
        {
            k = k - 1;
            locals.push(popped[k]);
        }
        proof {
            assert(locals@ =~= args);
        }
        // declared locals are zero-initialized, uniformly as 32-bit zero
        let nlocals = self.code.locals.len();
        let mut z: usize = 0;
        while z < nlocals
            invariant
                z <= nlocals,
                nlocals == self.code@.locals.len(),
                locals@ == args + Seq::new(z as nat, |i: int| Val::I32(0)),
            decreases nlocals - z,
        {
            locals.push(Val::I32(0));
            z = z + 1;
            proof {
                assert(locals@ =~= args + Seq::new(z as nat, |i: int| Val::I32(0)));
            }
        }
        let ghost locals0 = locals@;
        let frame = Frame {
            locals: copy_vec(&locals),
            module: self.module,
            labels: LabelStack(Vec::new()),
        };
        let ghost fv = frame@;
        frame_stack.push(frame);
        proof {
            assert(frame_stack@ == old(frame_stack)@.push(fv));
            assert(old(frame_stack)@.push(fv).drop_last() =~= old(frame_stack)@);
        }
        let ghost rest = s0.take(s0.len() - pci);
        let body_len = self.code.body.0.len();
        let mut ip: usize = 0;
        proof {
            assert(value_stack@ == rest);
            assert(self.code@.body.skip(0) =~= self.code@.body);
        }
        while ip < body_len
            invariant
                ip <= body_len,
                body_len == self.code@.body.len(),
                frame_stack@ == old(frame_stack)@.push(fv),
                run_body(self.code@.body, locals0, rest) == run_body(
                    self.code@.body.skip(ip as int),
                    locals@,
                    value_stack@,
                ),
            decreases body_len - ip,
        {
            let ghost pre_l = locals@;
            let ghost pre_s = value_stack@;
            let instr = self.code.body.0[ip];
            proof {
                assert(self.code@.body.skip(ip as int)[0] == self.code@.body[ip as int]);
                assert(self.code@.body.skip(ip as int).drop_first() =~= self.code@.body.skip(
                    ip + 1,
                ));
            }
            match self.invoke(&instr, &mut locals, value_stack) {
                Ok(u) => {},
                Err(e) => {
                    proof {
                        assert(step_instr(instr, pre_l, pre_s) == (
                            Err::<(), RuntimeError>(e),
                            locals@,
                            value_stack@,
                        ));
                        assert(run_body(self.code@.body.skip(ip as int), pre_l, pre_s) == (
                            Err::<(), RuntimeError>(e),
                            locals@,
                            value_stack@,
                        ));
                        assert(run_body(self.code@.body, locals0, rest) == (
                            Err::<(), RuntimeError>(e),
                            locals@,
                            value_stack@,
                        ));
                        assert(s0.subrange(s0.len() - pci, s0.len() as int) == args);
                    }
                    frame_stack.pop();
                    proof {
                        assert(old(frame_stack)@.push(fv).drop_last() =~= old(frame_stack)@);
                    }
                    return Err(e);
                },
            }
            ip = ip + 1;
        }
        proof {
            assert(self.code@.body.skip(body_len as int) =~= Seq::<Instr>::empty());
        }
        frame_stack.pop();
        proof {
            assert(old(frame_stack)@.push(fv).drop_last() =~= old(frame_stack)@);
        }
        Ok(())
    }
}

} // verus!
