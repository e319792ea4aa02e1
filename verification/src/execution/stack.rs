use crate::structure::instructions::Instr;
use vstd::prelude::*;

verus! {

/// A runtime value: one of the four numeric kinds. The floating-point kinds
/// carry their bit patterns; no arithmetic is ever performed on them.
#[derive(Debug, Clone, Copy, PartialEq)]
pub enum Val {
    I32(i32),
    I64(i64),
    F32(u32),
    F64(u64),
}

/// The operand stack, shared across the execution of one exported call.
#[derive(Debug, Clone, PartialEq)]
pub struct ValueStack(pub Vec<Val>);

impl View for ValueStack {
    type V = Seq<Val>;

    open spec fn view(&self) -> Seq<Val> {
        self.0@
    }
}

impl ValueStack {
    /// Push one value on top of the stack.
    pub fn push(&mut self, v: Val)
        ensures
            final(self)@ == old(self)@.push(v),
    {
        self.0.push(v);
    }

    /// Pop the top value, if there is one.
    pub fn pop(&mut self) -> (r: Option<Val>)
        ensures
            old(self)@.len() == 0 ==> r is None && final(self)@ == old(self)@,
            old(self)@.len() > 0 ==> r == Some(old(self)@.last()) && final(self)@ == old(self)@.drop_last(),
    {
        self.0.pop()
    }
}

/// The mathematical content of a label.
#[verifier::ext_equal]
pub ghost struct LabelV {
    pub instrs: Seq<Instr>,
    pub n: nat,
}

/// A label: a continuation and its arity. Reserved for control flow; no
/// supported instruction reads one.
#[derive(Debug, Clone, PartialEq)]
pub struct Label {
    pub instrs: Vec<Instr>,
    pub n: usize,
}

impl View for Label {
    type V = LabelV;

    open spec fn view(&self) -> LabelV {
        LabelV { instrs: self.instrs@, n: self.n as nat }
    }
}

/// A stack of labels, one per frame.
#[derive(Debug, Clone, PartialEq)]
pub struct LabelStack(pub Vec<Label>);

impl View for LabelStack {
    type V = Seq<LabelV>;

    open spec fn view(&self) -> Seq<LabelV> {
        Seq::new(self.0@.len(), |i: int| self.0@[i]@)
    }
}

/// The mathematical content of a frame.
#[verifier::ext_equal]
pub ghost struct FrameV {
    pub locals: Seq<Val>,
    pub module: int,
    pub labels: Seq<LabelV>,
}

/// One activation record: the locals as the call began (arguments, then
/// zero-initialized declared locals), the owning module instance's address
/// in the store, and a label stack.
#[derive(Debug, Clone, PartialEq)]
pub struct Frame {
    pub locals: Vec<Val>,
    pub module: usize,
    pub labels: LabelStack,
}

impl View for Frame {
    type V = FrameV;

    open spec fn view(&self) -> FrameV {
        FrameV { locals: self.locals@, module: self.module as int, labels: self.labels@ }
    }
}

/// The call-frame stack: one frame per active call, pushed on entry.
#[derive(Debug, Clone, PartialEq)]
pub struct FrameStack(pub Vec<Frame>);

impl View for FrameStack {
    type V = Seq<FrameV>;

    open spec fn view(&self) -> Seq<FrameV> {
        Seq::new(self.0@.len(), |i: int| self.0@[i]@)
    }
}

impl FrameStack {
    /// Push one frame.
    pub fn push(&mut self, f: Frame)
        ensures
            final(self)@ == old(self)@.push(f@),
    {
        self.0.push(f);
        proof {
            assert(self@ =~= old(self)@.push(f@));
        }
    }

    /// Pop the top frame, if there is one.
    pub fn pop(&mut self) -> (r: Option<Frame>)
        ensures
            old(self)@.len() == 0 ==> r is None && final(self)@ == old(self)@,
            old(self)@.len() > 0 ==> (r matches Some(f) && f@ == old(self)@.last()) && final(self)@ == old(self)@.drop_last(),
    {
        let r = self.0.pop();
        proof {
            if old(self)@.len() > 0 {
                assert(self@ =~= old(self)@.drop_last());
            } else {
                assert(self@ =~= old(self)@);
            }
        }
        r
    }
}

} // verus!
