use vstd::prelude::*;

use crate::literal::IntLiteral;

verus! {

/// A jump target.
#[derive(Clone, Copy, Debug, PartialEq, Eq, Structural)]
pub struct Label(pub usize);

/// Where a name is looked up.
#[derive(Clone, Copy, Debug, PartialEq, Eq, Structural)]
pub enum NameScope {
    Local,
    NonLocal,
    Global,
    Free,
}

#[derive(Clone, Copy, Debug, PartialEq, Eq, Structural)]
pub enum ComparisonOperator {
    Greater,
    GreaterOrEqual,
    Less,
    LessOrEqual,
    Equal,
    NotEqual,
    In,
    NotIn,
    Is,
    IsNot,
    ExceptionMatch,
}

#[derive(Clone, Copy, Debug, PartialEq, Eq, Structural)]
pub enum BinaryOperator {
    Power,
    Multiply,
    MatrixMultiply,
    Divide,
    FloorDivide,
    Modulo,
    Add,
    Subtract,
    Lshift,
    Rshift,
    And,
    Xor,
    Or,
}

/// A constant operand of `LoadConst`.
#[derive(Clone, Debug)]
pub enum Constant {
    Integer { value: IntLiteral },
    /// A float, held as the bits of its IEEE 754 double representation.
    Float { bits: u64 },
    /// Any other kind of constant (string, tuple, complex, ...).
    Other,
}

/// One bytecode instruction.
#[derive(Clone, Debug)]
pub enum Instruction {
    JumpIfFalse { target: Label },
    Jump { target: Label },
    LoadName { name: String, scope: NameScope },
    StoreName { name: String, scope: NameScope },
    LoadConst { value: Constant },
    ReturnValue,
    CompareOperation { op: ComparisonOperator },
    BinaryOperation { op: BinaryOperator, inplace: bool },
    /// Any instruction kind that has no translation rule.
    Other,
}

/// The bytecode of one function: its instructions and where each label points.
#[derive(Clone, Debug)]
pub struct CodeObject {
    pub instructions: Vec<Instruction>,
    /// Jump targets: each label with the offset of the instruction it names.
    pub label_map: Vec<(Label, usize)>,
}

/// The label that names `offset`: the last entry of `label_map` that points there.
pub open spec fn label_at(label_map: Seq<(Label, usize)>, offset: int) -> Option<Label>
    decreases label_map.len(),
{
    if label_map.len() == 0 {
        None
    } else if label_map.last().1 == offset {
        Some(label_map.last().0)
    } else {
        label_at(label_map.drop_last(), offset)
    }
}

/// Some offset of an instruction of `code` is named by `label`, so the scan
/// enters the label's block there.
pub open spec fn enters(code: CodeObject, label: Label) -> bool {
    exists|off: int|
        0 <= off < code.instructions@.len() && #[trigger] label_at(code.label_map@, off) == Some(
            label,
        )
}

/// The jump target of `ins`, if it has one, is entered somewhere in `code`.
pub open spec fn target_defined(code: CodeObject, ins: Instruction) -> bool {
    match ins {
        Instruction::Jump { target } => enters(code, target),
        Instruction::JumpIfFalse { target } => enters(code, target),
        _ => true,
    }
}

impl CodeObject {
    /// Whether some instruction offset is named by `label`.
    pub fn enters_label(&self, label: Label) -> (r: bool)
        ensures
            r == enters(*self, label),
    {
        let mut off: usize = 0;
        while off < self.instructions.len()
            invariant
                off <= self.instructions@.len(),
                forall|j: int| 0 <= j < off ==> #[trigger] label_at(self.label_map@, j) != Some(label),
            decreases self.instructions@.len() - off,
        {
            if let Some(l) = self.label_at_offset(off) {
                if l == label {
                    return true;
                }
            }
            off = off + 1;
        }
        false
    }

    /// The label defined at `offset`, if any.
    pub fn label_at_offset(&self, offset: usize) -> (r: Option<Label>)
        ensures
            r == label_at(self.label_map@, offset as int),
    {
        let mut i: usize = self.label_map.len();
        assert(self.label_map@.subrange(0, self.label_map@.len() as int) =~= self.label_map@);
        while i > 0
            invariant
                i <= self.label_map@.len(),
                label_at(self.label_map@, offset as int) == label_at(
                    self.label_map@.subrange(0, i as int),
                    offset as int,
                ),
            decreases i,
        {
            let (label, at) = self.label_map[i - 1];
            assert(self.label_map@.subrange(0, i as int).drop_last() =~= self.label_map@.subrange(
                0,
                i - 1,
            ));
            if at == offset {
                return Some(label);
            }
            i = i - 1;
        }
        None
    }
}

} // verus!
