use vstd::prelude::*;

verus! {

/// The kinds of value the compiler can type.
#[derive(Clone, Copy, Debug, PartialEq, Eq, Structural)]
pub enum JitType {
    /// A 64-bit signed integer.
    Int,
    /// A double-precision float.
    Float,
}

/// Why a function could not be compiled.
#[derive(Clone, Copy, Debug, PartialEq, Eq, Structural)]
pub enum JitCompileError {
    /// Valid bytecode that uses something the compiler does not model.
    NotSupported,
    /// Structurally invalid bytecode (empty stack, unbound name, ...).
    BadBytecode,
}

/// The call signature of a compiled function.
#[derive(Clone, Debug)]
pub struct JitSig {
    pub args: Vec<JitType>,
    pub ret: Option<JitType>,
}

} // verus!
