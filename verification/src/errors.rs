use vstd::prelude::*;

verus! {

/// The way in which a binary module violated the format or could not be run.
#[derive(Debug, Clone, Copy, PartialEq, Eq, Structural)]
pub enum WasmFault {
    /// The stream does not begin with the module signature.
    Magic,
    /// The four bytes after the signature are not the supported version.
    Version,
    /// A vector's length byte could not be read.
    Vector,
    /// A function type does not begin with the function-type marker.
    FuncTypeTag,
    /// A value-type byte is not one of the four number types.
    NumType,
    /// An export descriptor tag is not one of the four known tags.
    ExportDesc,
    /// An export name is not valid UTF-8.
    Utf8,
    /// A section id other than Type, Function, Export or Code.
    Section,
    /// An instruction opcode outside the supported set.
    Opcode,
    /// More code-section entries than function-section indices.
    CodeIndex,
    /// The stream ended in the middle of a varint.
    StreamEnd,
    /// A varint is too large for 32 bits.
    IntOverflow,
    /// A function's declared type index is out of range.
    UnknownFuncType,
    /// An arithmetic operand on the value stack had the wrong kind.
    OperandType,
    /// A local index at or beyond the frame's local count.
    InvalidLocals,
    /// A local-set popped from an empty value stack.
    EmptyStack,
    /// An arithmetic pop found the value stack empty.
    NoOperand,
}

/// The way in which a call into a module was invalid.
#[derive(Debug, Clone, Copy, PartialEq, Eq, Structural)]
pub enum CallFault {
    /// No export carries the requested name.
    UnknownFunction,
    /// The named export is not a function export.
    NotAFunction,
    /// The export's function address is outside the store.
    UnknownFuncAddr,
    /// The argument count differs from the parameter count.
    Arity,
    /// Fewer values on the stack than the call owes.
    MissingResult,
}

/// An error from decoding, instantiating or executing a module: either the
/// binary itself is invalid, or the call into it is.
#[derive(Debug, Clone, Copy, PartialEq, Eq, Structural)]
pub enum RuntimeError {
    InvalidWasmError(WasmFault),
    InvalidParameters(CallFault),
}

} // verus!
