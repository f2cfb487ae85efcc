//! A just-in-time compiler front end: translates stack-based bytecode into a
//! typed, block-structured intermediate representation, inferring the
//! function's signature on the way.
pub mod bytecode;
pub mod compiler;
pub mod ir;
pub mod laws;
pub mod literal;
pub mod types;

pub use compiler::{FunctionCompiler, JitValue, Local};
pub use bytecode::{BinaryOperator, CodeObject, ComparisonOperator, Constant, Instruction, Label, NameScope};

pub use ir::{Block, FloatOp, FunctionBuilder, Inst, IntCC, Value, Variable};
pub use literal::IntLiteral;
pub use types::{JitCompileError, JitSig, JitType};
