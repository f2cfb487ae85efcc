use vstd::prelude::*;

use crate::bytecode::{
    enters, label_at, target_defined, BinaryOperator, CodeObject, ComparisonOperator, Constant, Instruction, Label,
    NameScope,
};
use crate::ir::{ends_in_terminator, Block, FloatOp, FunctionBuilder, Inst, IntCC, Value, Variable};
use crate::laws::{lemma_label_entered, lemma_step_keeps_label, lemma_translation_keeps_label};
use crate::types::{JitCompileError, JitSig, JitType};

verus! {

/// A named local slot: a variable and the type it was first stored with.
#[derive(Clone, Copy, Debug, PartialEq, Eq, Structural)]
pub struct Local {
    pub var: Variable,
    pub ty: JitType,
}

/// A value on the operand stack, with its type.
#[derive(Clone, Copy, Debug, PartialEq, Eq, Structural)]
pub struct JitValue {
    pub val: Value,
    pub ty: JitType,
}

impl JitValue {
    pub fn new(val: Value, ty: JitType) -> (r: JitValue)
        ensures
            r == (JitValue { val, ty }),
    {
        JitValue { val, ty }
    }
}

/// The local bound to `name`: the last binding of it in `vars`.
pub open spec fn find_var(vars: Seq<(String, Local)>, name: Seq<char>) -> Option<Local>
    decreases vars.len(),
{
    if vars.len() == 0 {
        None
    } else if vars.last().0@ == name {
        Some(vars.last().1)
    } else {
        find_var(vars.drop_last(), name)
    }
}

/// The block registered for `label`: the last registration of it in `table`.
pub open spec fn find_label(table: Seq<(Label, Block)>, label: Label) -> Option<Block>
    decreases table.len(),
{
    if table.len() == 0 {
        None
    } else if table.last().0 == label {
        Some(table.last().1)
    } else {
        find_label(table.drop_last(), label)
    }
}

/// The comparison condition that a comparison operator translates to.
/// `GreaterOrEqual` maps to `SignedLessThanOrEqual`, the same condition as
/// `LessOrEqual`; this mapping is kept as it stands until the bytecode's
/// meaning for that operator is confirmed.
pub open spec fn int_cc(op: ComparisonOperator) -> Option<IntCC> {
    match op {
        ComparisonOperator::Equal => Some(IntCC::Equal),
        ComparisonOperator::NotEqual => Some(IntCC::NotEqual),
        ComparisonOperator::Less => Some(IntCC::SignedLessThan),
        ComparisonOperator::LessOrEqual => Some(IntCC::SignedLessThanOrEqual),
        ComparisonOperator::Greater => Some(IntCC::SignedGreaterThan),
        ComparisonOperator::GreaterOrEqual => Some(IntCC::SignedLessThanOrEqual),
        _ => None,
    }
}

/// The float operation that a binary operator translates to on two floats.
pub open spec fn float_op(op: BinaryOperator) -> Option<FloatOp> {
    match op {
        BinaryOperator::Add => Some(FloatOp::Add),
        BinaryOperator::Subtract => Some(FloatOp::Sub),
        BinaryOperator::Multiply => Some(FloatOp::Mul),
        BinaryOperator::Divide => Some(FloatOp::Div),
        _ => None,
    }
}

/// Whether a binary operator has a translation on operands of types `a` and `b`.
pub open spec fn binary_supported(op: BinaryOperator, a: JitType, b: JitType) -> bool {
    match (a, b) {
        (JitType::Int, JitType::Int) => op == BinaryOperator::Add || op == BinaryOperator::Subtract,
        (JitType::Float, JitType::Float) => float_op(op) is Some,
        _ => false,
    }
}

/// The instructions that `a op b` appends: overflow-checked integer addition
/// or subtraction followed by a trap on overflow, or one float operation.
pub open spec fn binary_emitted(
    op: BinaryOperator,
    a: JitValue,
    b: JitValue,
    out: Value,
    flags: Value,
) -> Seq<Inst> {
    if a.ty == JitType::Int {
        if op == BinaryOperator::Add {
            seq![Inst::IaddIfcout { out, flags, a: a.val, b: b.val }, Inst::TrapOverflow { flags }]
        } else {
            seq![Inst::IsubIfbout { out, flags, a: a.val, b: b.val }, Inst::TrapOverflow { flags }]
        }
    } else {
        seq![Inst::FloatBinary { op: float_op(op)->0, out, a: a.val, b: b.val }]
    }
}

/// Translates bytecode of one function into the graph of a `FunctionBuilder`,
/// checking types on an abstract operand stack and inferring the signature.
pub struct FunctionCompiler {
    pub builder: FunctionBuilder,
    pub stack: Vec<JitValue>,
    /// Bound names, the latest binding of a name last.
    pub variables: Vec<(String, Local)>,
    /// Registered labels, the latest registration of a label last.
    pub label_to_block: Vec<(Label, Block)>,
    pub sig: JitSig,
}

impl FunctionCompiler {
    /// The builder is well formed, every local names a declared variable of
    /// its own type, and every registered label names a block of the graph.
    pub open spec fn wf(&self) -> bool {
        &&& self.builder.wf()
        &&& forall|i: int|
            0 <= i < self.variables@.len() ==> {
                let l = (#[trigger] self.variables@[i]).1;
                &&& l.var.0 < self.builder.var_types@.len()
                &&& self.builder.var_types@[l.var.0 as int] == l.ty
            }
        &&& forall|i: int|
            0 <= i < self.label_to_block@.len() ==> (#[trigger] self.label_to_block@[i]).1.0
                < self.builder.blocks@.len()
    }

    /// The type bound to `name`, if any.
    pub open spec fn var_type(&self, name: Seq<char>) -> Option<JitType> {
        match find_var(self.variables@, name) {
            Some(l) => Some(l.ty),
            None => None,
        }
    }

    /// The types on the operand stack, bottom first.
    pub open spec fn stack_types(&self) -> Seq<JitType> {
        self.stack@.map_values(|v: JitValue| v.ty)
    }

    /// What translating `ins` in this state comes to: which error, if any.
    pub open spec fn outcome(&self, ins: Instruction) -> Result<(), JitCompileError> {
        let st = self.stack@;
        let n = st.len();
        match ins {
            Instruction::JumpIfFalse { .. } => if n == 0 {
                Err(JitCompileError::BadBytecode)
            } else if st.last().ty == JitType::Float {
                Err(JitCompileError::NotSupported)
            } else {
                Ok(())
            },
            Instruction::Jump { .. } => Ok(()),
            Instruction::LoadName { name, scope: NameScope::Local } => if self.var_type(
                name@,
            ) is None {
                Err(JitCompileError::BadBytecode)
            } else {
                Ok(())
            },
            Instruction::StoreName { name, scope: NameScope::Local } => if n == 0 {
                Err(JitCompileError::BadBytecode)
            } else if self.var_type(name@) is Some && self.var_type(name@) != Some(st.last().ty) {
                Err(JitCompileError::NotSupported)
            } else {
                Ok(())
            },
            Instruction::LoadConst { value: Constant::Integer { value } } => if value.as_i64() is None {
                Err(JitCompileError::NotSupported)
            } else {
                Ok(())
            },
            Instruction::LoadConst { value: Constant::Float { .. } } => Ok(()),
            Instruction::ReturnValue => if n == 0 {
                Err(JitCompileError::BadBytecode)
            } else if self.sig.ret is Some && self.sig.ret != Some(st.last().ty) {
                Err(JitCompileError::NotSupported)
            } else {
                Ok(())
            },
            Instruction::CompareOperation { op } => if n < 2 {
                Err(JitCompileError::BadBytecode)
            } else if st[n - 2].ty == JitType::Int && st[n - 1].ty == JitType::Int && int_cc(
                op,
            ) is Some {
                Ok(())
            } else {
                Err(JitCompileError::NotSupported)
            },
            Instruction::BinaryOperation { op, .. } => if n < 2 {
                Err(JitCompileError::BadBytecode)
            } else if binary_supported(op, st[n - 2].ty, st[n - 1].ty) {
                Ok(())
            } else {
                Err(JitCompileError::NotSupported)
            },
            _ => Err(JitCompileError::NotSupported),
        }
    }

    /// What holds of every translation step, whatever its outcome: the
    /// compiler stays well formed, the argument types stay, a fixed return
    /// type stays, a bound name keeps its type, and the graph only grows.
    pub open spec fn step_preserves(&self, next: &Self, n: int) -> bool {
        &&& next.wf()
        &&& next.sig.args@ == self.sig.args@
        &&& (self.sig.ret is Some ==> next.sig.ret == self.sig.ret)
        &&& forall|name: Seq<char>|
            self.var_type(name) is Some ==> #[trigger] next.var_type(name) == self.var_type(name)
        &&& self.builder.blocks@.len() <= next.builder.blocks@.len() <= self.builder.blocks@.len()
            + n
        &&& self.builder.next_value <= next.builder.next_value <= self.builder.next_value + n
    }

    /// The block a jump to `target` goes to: the one registered for it, or
    /// the block about to be created.
    pub open spec fn target_block(&self, target: Label) -> Block {
        match find_label(self.label_to_block@, target) {
            Some(b) => b,
            None => Block(self.builder.blocks@.len() as usize),
        }
    }

    /// Resolving `target` went from `self` to `next`: the registered block is
    /// kept, or a new empty block is created and registered.
    pub open spec fn target_resolved(&self, target: Label, next: &Self) -> bool {
        let nb = self.builder.blocks@.len() as int;
        if find_label(self.label_to_block@, target) is Some {
            &&& next.label_to_block@ == self.label_to_block@
            &&& next.builder.blocks@.len() >= nb
        } else {
            &&& next.label_to_block@ == self.label_to_block@.push((target, Block(nb as usize)))
            &&& next.builder.blocks@.len() >= nb + 1
            &&& next.builder.blocks@[nb]@.len() == 0
        }
    }

    /// Blocks other than the current one that existed in `self` are the same in `next`.
    pub open spec fn other_blocks_kept(&self, next: &Self) -> bool {
        forall|i: int|
            0 <= i < self.builder.blocks@.len() && i != self.builder.current.0 ==> #[trigger] next.builder.blocks@[i]@
                == self.builder.blocks@[i]@
    }

    /// Reaching an offset that `lbl` names went from `self` to `next`: the
    /// label's block is resolved, an open current block is ended with a jump
    /// into it, and it becomes the insertion point. With no label nothing
    /// changes.
    pub open spec fn entered(&self, lbl: Option<Label>, next: &Self) -> bool {
        match lbl {
            None => *next == *self,
            Some(l) => {
                let b = self.target_block(l);
                let cur = self.builder.current.0 as int;
                &&& self.target_resolved(l, next)
                &&& next.builder.blocks@.len() == (if find_label(self.label_to_block@, l) is Some {
                    self.builder.blocks@.len() as int
                } else {
                    self.builder.blocks@.len() + 1int
                })
                &&& next.builder.blocks@[cur]@ == (if self.builder.filled() {
                    self.builder.current_insts()
                } else {
                    self.builder.current_insts() + seq![Inst::Jump { dest: b }]
                })
                &&& self.other_blocks_kept(next)
                &&& next.builder.current == b
                &&& next.stack == self.stack
                &&& next.variables == self.variables
                &&& next.sig == self.sig
                &&& next.builder.next_value == self.builder.next_value
                &&& next.builder.var_types@ == self.builder.var_types@
            },
        }
    }

    /// What translating `ins` of `code` in this state comes to: a jump to a
    /// label that `code` does not define is malformed, else as `outcome`.
    pub open spec fn step_result(&self, code: CodeObject, ins: Instruction) -> Result<(), JitCompileError> {
        if !target_defined(code, ins) {
            Err(JitCompileError::BadBytecode)
        } else {
            self.outcome(ins)
        }
    }

    /// What a successful translation of `ins` did, going from `self` to `next`.
    pub open spec fn translated(&self, ins: Instruction, next: &Self) -> bool {
        let st = self.stack@;
        let n = st.len();
        let fresh = Value(self.builder.next_value);
        let cur = self.builder.current;
        match ins {
            Instruction::JumpIfFalse { target } => {
                let b = self.target_block(target);
                let nt = if find_label(self.label_to_block@, target) is Some {
                    self.builder.blocks@.len() as int
                } else {
                    self.builder.blocks@.len() + 1int
                };
                &&& next.stack@ == st.drop_last()
                &&& next.variables == self.variables
                &&& next.sig == self.sig
                &&& self.target_resolved(target, next)
                &&& next.builder.blocks@.len() == nt + 1
                &&& next.builder.blocks@[cur.0 as int]@ == self.builder.current_insts() + seq![
                    Inst::Brz { cond: st.last().val, dest: b },
                    Inst::Fallthrough { dest: Block(nt as usize) },
                ]
                &&& next.builder.blocks@[nt]@.len() == 0
                &&& next.builder.current == Block(nt as usize)
                &&& self.other_blocks_kept(next)
                &&& next.builder.next_value == self.builder.next_value
                &&& next.builder.var_types@ == self.builder.var_types@
            },
            Instruction::Jump { target } => {
                let b = self.target_block(target);
                &&& next.stack@ == st
                &&& next.variables == self.variables
                &&& next.sig == self.sig
                &&& self.target_resolved(target, next)
                &&& next.builder.blocks@.len() == (if find_label(self.label_to_block@, target) is Some {
                    self.builder.blocks@.len() as int
                } else {
                    self.builder.blocks@.len() + 1int
                })
                &&& next.builder.blocks@[cur.0 as int]@ == self.builder.current_insts() + seq![
                    Inst::Jump { dest: b },
                ]
                &&& next.builder.current == cur
                &&& self.other_blocks_kept(next)
                &&& next.builder.next_value == self.builder.next_value
                &&& next.builder.var_types@ == self.builder.var_types@
            },
            Instruction::LoadName { name, .. } => {
                let l = find_var(self.variables@, name@)->0;
                &&& next.stack@ == st.push(JitValue { val: fresh, ty: l.ty })
                &&& next.variables == self.variables
                &&& next.label_to_block == self.label_to_block
                &&& next.sig == self.sig
                &&& next.builder.var_types@ == self.builder.var_types@
                &&& next.builder.appended(&self.builder, seq![Inst::UseVar { out: fresh, var: l.var }])
            },
            Instruction::StoreName { name, .. } => {
                let l = find_var(next.variables@, name@)->0;
                &&& next.stack@ == st.drop_last()
                &&& next.var_type(name@) == Some(st.last().ty)
                &&& (find_var(self.variables@, name@) is Some ==> find_var(next.variables@, name@)
                    == find_var(self.variables@, name@))
                &&& forall|other: Seq<char>|
                    other != name@ ==> #[trigger] find_var(next.variables@, other) == find_var(
                        self.variables@,
                        other,
                    )
                &&& match find_var(self.variables@, name@) {
                    Some(_) => next.builder.var_types@ == self.builder.var_types@
                        && next.variables == self.variables,
                    None => l == (Local { var: Variable(self.builder.var_types@.len() as usize), ty: st.last().ty })
                        && next.builder.var_types@ == self.builder.var_types@.push(st.last().ty)
                        && next.variables@ == self.variables@.push((next.variables@.last().0, l))
                        && next.variables@.last().0@ == name@,
                }
                &&& next.builder.next_value == self.builder.next_value
                &&& next.label_to_block == self.label_to_block
                &&& next.sig == self.sig
                &&& next.builder.appended(&self.builder, seq![Inst::DefVar { var: l.var, val: st.last().val }])
            },
            Instruction::LoadConst { value: Constant::Integer { value } } => {
                &&& next.stack@ == st.push(JitValue { val: fresh, ty: JitType::Int })
                &&& next.variables == self.variables
                &&& next.label_to_block == self.label_to_block
                &&& next.sig == self.sig
                &&& next.builder.var_types@ == self.builder.var_types@
                &&& next.builder.appended(&self.builder, seq![Inst::Iconst { out: fresh, imm: value.as_i64()->0 }])
            },
            Instruction::LoadConst { value: Constant::Float { bits } } => {
                &&& next.stack@ == st.push(JitValue { val: fresh, ty: JitType::Float })
                &&& next.variables == self.variables
                &&& next.label_to_block == self.label_to_block
                &&& next.sig == self.sig
                &&& next.builder.var_types@ == self.builder.var_types@
                &&& next.builder.appended(&self.builder, seq![Inst::F64const { out: fresh, bits }])
            },
            Instruction::ReturnValue => {
                &&& next.stack@ == st.drop_last()
                &&& next.variables == self.variables
                &&& next.label_to_block == self.label_to_block
                &&& next.sig.args == self.sig.args
                &&& next.sig.ret == Some(st.last().ty)
                &&& next.builder.var_types@ == self.builder.var_types@
                &&& next.builder.next_value == self.builder.next_value
                &&& next.builder.appended(&self.builder, seq![Inst::Return { val: st.last().val }])
            },
            Instruction::CompareOperation { op } => {
                &&& next.stack@ == st.subrange(0, n - 2).push(JitValue { val: fresh, ty: JitType::Int })
                &&& next.variables == self.variables
                &&& next.label_to_block == self.label_to_block
                &&& next.sig == self.sig
                &&& next.builder.var_types@ == self.builder.var_types@
                &&& next.builder.appended(
                    &self.builder,
                    seq![Inst::Icmp { out: fresh, cond: int_cc(op)->0, a: st[n - 2].val, b: st[n - 1].val }],
                )
            },
            Instruction::BinaryOperation { op, .. } => {
                &&& next.stack@ == st.subrange(0, n - 2).push(JitValue { val: fresh, ty: st[n - 2].ty })
                &&& next.variables == self.variables
                &&& next.label_to_block == self.label_to_block
                &&& next.sig == self.sig
                &&& next.builder.var_types@ == self.builder.var_types@
                &&& next.builder.appended(
                    &self.builder,
                    binary_emitted(op, st[n - 2], st[n - 1], fresh, Value((fresh.0 + 1) as usize)),
                )
            },
            _ => false,
        }
    }

    /// The local bound to `name`.
    fn lookup_var(&self, name: &String) -> (r: Option<Local>)
        ensures
            r == find_var(self.variables@, name@),
    {
        let mut i: usize = self.variables.len();
        assert(self.variables@.subrange(0, self.variables@.len() as int) =~= self.variables@);
        while i > 0
            invariant
                i <= self.variables@.len(),
                find_var(self.variables@, name@) == find_var(
                    self.variables@.subrange(0, i as int),
                    name@,
                ),
            decreases i,
        {
            assert(self.variables@.subrange(0, i as int).drop_last() =~= self.variables@.subrange(
                0,
                i - 1,
            ));
            if self.variables[i - 1].0 == *name {
                return Some(self.variables[i - 1].1);
            }
            i = i - 1;
        }
        None
    }

    /// The block registered for `label`.
    fn lookup_label(&self, label: Label) -> (r: Option<Block>)
        ensures
            r == find_label(self.label_to_block@, label),
    {
        let mut i: usize = self.label_to_block.len();
        assert(self.label_to_block@.subrange(0, self.label_to_block@.len() as int) =~= self.label_to_block@);
        while i > 0
            invariant
                i <= self.label_to_block@.len(),
                find_label(self.label_to_block@, label) == find_label(
                    self.label_to_block@.subrange(0, i as int),
                    label,
                ),
            decreases i,
        {
            assert(self.label_to_block@.subrange(0, i as int).drop_last()
                =~= self.label_to_block@.subrange(0, i - 1));
            if self.label_to_block[i - 1].0 == label {
                return Some(self.label_to_block[i - 1].1);
            }
            i = i - 1;
        }
        None
    }

    /// Starts a compilation whose arguments are bound, in order, to the
    /// parameter values of `entry_block`: each argument's slot is written with
    /// its parameter value, at the current insertion point.
    pub fn new(
        builder: FunctionBuilder,
        arg_names: &[String],
        arg_types: &[JitType],
        entry_block: Block,
    ) -> (r: FunctionCompiler)
        requires
            builder.wf(),
            !builder.filled(),
            arg_names@.len() == arg_types@.len(),
            entry_block.0 < builder.blocks@.len(),
            builder.block_params@[entry_block.0 as int]@.len() == arg_names@.len(),
            forall|i: int, j: int|
                0 <= i < j < arg_names@.len() && arg_names@[i]@ == arg_names@[j]@
                    ==> arg_types@[i] == arg_types@[j],
        ensures
            r.wf(),
            !r.builder.filled(),
            r.sig.args@ == arg_types@,
            r.sig.ret is None,
            r.stack@.len() == 0,
            r.label_to_block@.len() == 0,
            forall|i: int|
                0 <= i < arg_names@.len() ==> r.var_type(#[trigger] arg_names@[i]@) == Some(
                    arg_types@[i],
                ),
            forall|name: Seq<char>|
                #[trigger] r.var_type(name) is Some ==> exists|k: int|
                    0 <= k < arg_names@.len() && arg_names@[k]@ == name,
            r.builder.var_types@.len() == builder.var_types@.len() + r.variables@.len(),
            r.builder.current_insts() == builder.current_insts() + Seq::new(
                arg_names@.len() as nat,
                |k: int|
                    Inst::DefVar {
                        var: find_var(r.variables@, arg_names@[k]@)->0.var,
                        val: builder.block_params@[entry_block.0 as int]@[k],
                    },
            ),
            r.builder.current == builder.current,
            r.builder.blocks@.len() == builder.blocks@.len(),
            r.builder.block_params@ == builder.block_params@,
            r.builder.next_value == builder.next_value,
    {
        let mut args: Vec<JitType> = Vec::new();
        let mut k: usize = 0;
        while k < arg_types.len()
            invariant
                k <= arg_types@.len(),
                args@ == arg_types@.subrange(0, k as int),
            decreases arg_types@.len() - k,
        {
            args.push(arg_types[k]);
            k = k + 1;
        }
        assert(args@ =~= arg_types@);
        let params = builder.block_params(entry_block).clone();
        let ghost base = builder.current_insts();
        let ghost var_count = builder.var_types@.len();
        let mut compiler = FunctionCompiler {
            builder,
            stack: Vec::new(),
            variables: Vec::new(),
            label_to_block: Vec::new(),
            sig: JitSig { args, ret: None },
        };
        assert(compiler.builder.current_insts() =~= base + Seq::new(
            0,
            |k: int|
                Inst::DefVar {
                    var: find_var(compiler.variables@, arg_names@[k]@)->0.var,
                    val: params@[k],
                },
        ));
        let mut i: usize = 0;
        while i < arg_names.len()
            invariant
                i <= arg_names@.len(),
                arg_names@.len() == arg_types@.len(),
                params@.len() == arg_names@.len(),
                params@ == builder.block_params@[entry_block.0 as int]@,
                compiler.wf(),
                !compiler.builder.filled(),
                compiler.sig.args@ == arg_types@,
                compiler.sig.ret is None,
                compiler.stack@.len() == 0,
                compiler.label_to_block@.len() == 0,
                compiler.builder.current == builder.current,
                compiler.builder.blocks@.len() == builder.blocks@.len(),
                compiler.builder.block_params@ == builder.block_params@,
                compiler.builder.next_value == builder.next_value,
                compiler.builder.var_types@.len() == var_count + compiler.variables@.len(),
                forall|i: int, j: int|
                    0 <= i < j < arg_names@.len() && arg_names@[i]@ == arg_names@[j]@
                        ==> arg_types@[i] == arg_types@[j],
                forall|k: int|
                    0 <= k < i ==> compiler.var_type(#[trigger] arg_names@[k]@) == Some(
                        arg_types@[k],
                    ),
                forall|name: Seq<char>|
                    #[trigger] find_var(compiler.variables@, name) is Some ==> exists|k: int|
                        0 <= k < i && arg_names@[k]@ == name,
                compiler.builder.current_insts() == base + Seq::new(
                    i as nat,
                    |k: int|
                        Inst::DefVar {
                            var: find_var(compiler.variables@, arg_names@[k]@)->0.var,
                            val: params@[k],
                        },
                ),
            decreases arg_names@.len() - i,
        {
            let name = arg_names[i].clone();
            let ty = arg_types[i];
            proof {
                if find_var(compiler.variables@, name@) is Some {
                    let k = choose|k: int| 0 <= k < i && arg_names@[k]@ == name@;
                    assert(compiler.var_type(arg_names@[k]@) == Some(arg_types@[k]));
                }
            }
            let ghost prev = compiler;
            let stored = compiler.store_variable(name, JitValue::new(params[i], ty));
            assert(stored is Ok);
            proof {
                assert forall|name: Seq<char>| #[trigger]
                    find_var(compiler.variables@, name) is Some implies exists|k: int|
                        0 <= k < i + 1 && arg_names@[k]@ == name by {
                    if name != arg_names@[i as int]@ {
                        assert(find_var(prev.variables@, name) is Some);
                        let k = choose|k: int| 0 <= k < i && arg_names@[k]@ == name;
                        assert(0 <= k < i + 1 && arg_names@[k]@ == name);
                    } else {
                        assert(arg_names@[i as int]@ == name);
                    }
                }
                assert forall|k: int| 0 <= k < i + 1 implies compiler.var_type(
                    #[trigger] arg_names@[k]@,
                ) == Some(arg_types@[k]) by {
                    if k < i && arg_names@[k]@ == arg_names@[i as int]@ {
                        assert(arg_types@[k] == arg_types@[i as int]);
                    }
                    if k < i && arg_names@[k]@ != arg_names@[i as int]@ {
                        assert(find_var(compiler.variables@, arg_names@[k]@) == find_var(prev.variables@, arg_names@[k]@));
                    }
                }
                assert forall|k: int| 0 <= k < i implies #[trigger] find_var(
                    compiler.variables@,
                    arg_names@[k]@,
                ) == find_var(prev.variables@, arg_names@[k]@) by {
                    assert(prev.var_type(arg_names@[k]@) is Some);
                }
                assert(compiler.builder.current_insts() =~= base + Seq::new(
                    (i + 1) as nat,
                    |k: int|
                        Inst::DefVar {
                            var: find_var(compiler.variables@, arg_names@[k]@)->0.var,
                            val: params@[k],
                        },
                ));
            }
            i = i + 1;
        }
        proof {
            assert forall|name: Seq<char>| #[trigger] compiler.var_type(name) is Some implies exists|k: int|
                0 <= k < arg_names@.len() && arg_names@[k]@ == name by {
                assert(find_var(compiler.variables@, name) is Some);
            }
        }
        compiler
    }

    /// Binds `val` under `name`. A new name is declared with `val`'s type; a
    /// bound name only takes a value of the type it was first bound with.
    pub fn store_variable(&mut self, name: String, val: JitValue) -> (r: Result<(), JitCompileError>)
        requires
            old(self).wf(),
            !old(self).builder.filled(),
        ensures
            r == (if old(self).var_type(name@) is Some && old(self).var_type(name@) != Some(
                val.ty,
            ) {
                Err(JitCompileError::NotSupported)
            } else {
                Ok(())
            }),
            r is Err ==> *final(self) == *old(self),
            r is Ok ==> {
                &&& final(self).wf()
                &&& final(self).var_type(name@) == Some(val.ty)
                &&& forall|n: Seq<char>|
                    n != name@ ==> #[trigger] find_var(final(self).variables@, n) == find_var(
                        old(self).variables@,
                        n,
                    )
                &&& match find_var(old(self).variables@, name@) {
                    Some(l) => find_var(final(self).variables@, name@) == Some(l)
                        && final(self).builder.var_types@ == old(self).builder.var_types@
                        && final(self).variables == old(self).variables,
                    None => find_var(final(self).variables@, name@) == Some(
                        Local { var: Variable(old(self).builder.var_types@.len() as usize), ty: val.ty },
                    ) && final(self).builder.var_types@ == old(self).builder.var_types@.push(val.ty)
                        && final(self).variables@.len() == old(self).variables@.len() + 1
                        && final(self).variables@ == old(self).variables@.push(
                        (final(self).variables@.last().0, final(self).variables@.last().1),
                    ) && final(self).variables@.last().0@ == name@,
                }
                &&& final(self).builder.appended(
                    &old(self).builder,
                    seq![Inst::DefVar { var: find_var(final(self).variables@, name@)->0.var, val: val.val }],
                )
                &&& final(self).builder.next_value == old(self).builder.next_value
                &&& final(self).stack == old(self).stack
                &&& final(self).label_to_block == old(self).label_to_block
                &&& final(self).sig == old(self).sig
            },
    {
        let found = self.lookup_var(&name);
        let local = match found {
            Some(l) => l,
            None => {
                let var = self.builder.declare_var(val.ty);
                let l = Local { var, ty: val.ty };
                let ghost name_view = name@;
                self.variables.push((name, l));
                proof {
                    assert(self.variables@.drop_last() =~= old(self).variables@);
                    assert(find_var(self.variables@, name_view) == Some(l));
                    assert forall|n: Seq<char>| n != name_view implies #[trigger] find_var(
                        self.variables@,
                        n,
                    ) == find_var(old(self).variables@, n) by {}
                    assert forall|i: int| 0 <= i < self.variables@.len() implies {
                        let l = (#[trigger] self.variables@[i]).1;
                        &&& l.var.0 < self.builder.var_types@.len()
                        &&& self.builder.var_types@[l.var.0 as int] == l.ty
                    } by {
                        if i < old(self).variables@.len() {
                            assert(self.variables@[i] == old(self).variables@[i]);
                        }
                    }
                }
                l
            },
        };
        if val.ty != local.ty {
            Err(JitCompileError::NotSupported)
        } else {
            self.builder.ins_effect(Inst::DefVar { var: local.var, val: val.val });
            Ok(())
        }
    }

    /// The value of a branch condition: integers serve as booleans, floats
    /// have no truth value here.
    fn boolean_val(&mut self, val: JitValue) -> (r: Result<Value, JitCompileError>)
        ensures
            *final(self) == *old(self),
            r == (match val.ty {
                JitType::Float => Err(JitCompileError::NotSupported),
                JitType::Int => Ok(val.val),
            }),
    {
        match val.ty {
            JitType::Float => Err(JitCompileError::NotSupported),
            JitType::Int => Ok(val.val),
        }
    }

    /// The block of `label`: the registered one, or a new block registered now.
    pub fn resolve_label(&mut self, label: Label) -> (r: Block)
        requires
            old(self).wf(),
            old(self).builder.has_room(1),
        ensures
            final(self).wf(),
            find_label(final(self).label_to_block@, label) == Some(r),
            r.0 < final(self).builder.blocks@.len(),
            match find_label(old(self).label_to_block@, label) {
                Some(b) => r == b && *final(self) == *old(self),
                None => {
                    &&& r.0 == old(self).builder.blocks@.len()
                    &&& final(self).label_to_block@ == old(self).label_to_block@.push((label, r))
                    &&& final(self).builder.blocks@ == old(self).builder.blocks@.push(
                        final(self).builder.blocks@[r.0 as int],
                    )
                    &&& final(self).builder.blocks@[r.0 as int]@.len() == 0
                    &&& final(self).builder.current == old(self).builder.current
                    &&& final(self).builder.next_value == old(self).builder.next_value
                    &&& final(self).builder.var_types@ == old(self).builder.var_types@
                    &&& final(self).stack == old(self).stack
                    &&& final(self).variables == old(self).variables
                    &&& final(self).sig == old(self).sig
                },
            },
    {
        match self.lookup_label(label) {
            Some(b) => {
                proof {
                    lemma_find_label_in(self.label_to_block@, label);
                }
                b
            },
            None => {
                let b = self.builder.create_block();
                self.label_to_block.push((label, b));
                proof {
                    assert(self.label_to_block@.drop_last() =~= old(self).label_to_block@);
                    assert forall|i: int| 0 <= i < self.label_to_block@.len() implies (
                    #[trigger] self.label_to_block@[i]).1.0 < self.builder.blocks@.len() by {
                        if i < old(self).label_to_block@.len() {
                            assert(self.label_to_block@[i] == old(self).label_to_block@[i]);
                        }
                    }
                }
                b
            },
        }
    }

    /// Branches to `target` when the popped condition is zero, and goes on in
    /// a new fallthrough block otherwise.
    fn jump_if_false(&mut self, target: Label) -> (r: Result<(), JitCompileError>)
        requires
            old(self).wf(),
            !old(self).builder.filled(),
            old(self).builder.has_room(2),
        ensures
            old(self).step_preserves(final(self), 2),
            r == old(self).outcome(Instruction::JumpIfFalse { target }),
            r is Ok ==> old(self).translated(Instruction::JumpIfFalse { target }, final(self)),
            r is Err ==> final(self).builder.current == old(self).builder.current
                && final(self).builder.current_insts() == old(self).builder.current_insts(),
    {
        let cond = match self.stack.pop() {
            Some(v) => v,
            None => return Err(JitCompileError::BadBytecode),
        };
        let ghost popped = *self;
        let then_block = self.resolve_label(target);
        let val = match self.boolean_val(cond) {
            Ok(v) => v,
            Err(e) => return Err(e),
        };
        let ghost cur = self.builder.current.0 as int;
        let ghost before = self.builder.current_insts();
        let ghost resolved = *self;
        self.builder.ins_effect(Inst::Brz { cond: val, dest: then_block });
        let block = self.builder.create_block();
        self.builder.ins_effect(Inst::Fallthrough { dest: block });
        proof {
            assert(self.builder.blocks@[block.0 as int]@.len() == 0);
            assert(self.builder.blocks@[cur]@ =~= before + seq![
                Inst::Brz { cond: val, dest: then_block },
                Inst::Fallthrough { dest: block },
            ]);
            if find_label(popped.label_to_block@, target) is None {
                let nb = popped.builder.blocks@.len() as int;
                assert(resolved.builder.blocks@[nb]@.len() == 0);
                assert(self.builder.blocks@[nb]@ == resolved.builder.blocks@[nb]@);
            }
            assert forall|i: int|
                0 <= i < old(self).builder.blocks@.len() && i != old(self).builder.current.0
                    implies #[trigger] self.builder.blocks@[i]@ == old(self).builder.blocks@[i]@ by {
                assert(self.builder.blocks@[i]@ == resolved.builder.blocks@[i]@);
            }
        }
        self.builder.switch_to_block(block);
        Ok(())
    }

    /// Jumps to the block of `target`.
    fn jump(&mut self, target: Label) -> (r: Result<(), JitCompileError>)
        requires
            old(self).wf(),
            !old(self).builder.filled(),
            old(self).builder.has_room(2),
        ensures
            old(self).step_preserves(final(self), 2),
            r == old(self).outcome(Instruction::Jump { target }),
            r is Ok ==> old(self).translated(Instruction::Jump { target }, final(self)),
            r is Err ==> final(self).builder.current == old(self).builder.current
                && final(self).builder.current_insts() == old(self).builder.current_insts(),
    {
        let target_block = self.resolve_label(target);
        let ghost resolved = *self;
        self.builder.ins_effect(Inst::Jump { dest: target_block });
        proof {
            if find_label(old(self).label_to_block@, target) is None {
                let nb = old(self).builder.blocks@.len() as int;
                assert(self.builder.blocks@[nb]@ == resolved.builder.blocks@[nb]@);
            }
            assert forall|i: int|
                0 <= i < old(self).builder.blocks@.len() && i != old(self).builder.current.0
                    implies #[trigger] self.builder.blocks@[i]@ == old(self).builder.blocks@[i]@ by {
                assert(self.builder.blocks@[i]@ == resolved.builder.blocks@[i]@);
            }
        }
        Ok(())
    }

    /// Translates one instruction at the current insertion point.
    #[verifier::rlimit(60)]
    pub fn add_instruction(&mut self, instruction: &Instruction) -> (r: Result<(), JitCompileError>)
        requires
            old(self).wf(),
            !old(self).builder.filled(),
            old(self).builder.has_room(2),
        ensures
            old(self).step_preserves(final(self), 2),
            r == old(self).outcome(*instruction),
            r is Ok ==> old(self).translated(*instruction, final(self)),
            r is Err ==> final(self).builder.current == old(self).builder.current
                && final(self).builder.current_insts() == old(self).builder.current_insts(),
    {
        let ghost st = self.stack@;
        match instruction {
            Instruction::JumpIfFalse { target } => self.jump_if_false(*target),
            Instruction::Jump { target } => self.jump(*target),
            Instruction::LoadName { name, scope: NameScope::Local } => {
                let local = match self.lookup_var(name) {
                    Some(l) => l,
                    None => return Err(JitCompileError::BadBytecode),
                };
                let val = self.builder.ins_value(Inst::UseVar { out: Value(0), var: local.var });
                self.stack.push(JitValue { val, ty: local.ty });
                Ok(())
            },
            Instruction::StoreName { name, scope: NameScope::Local } => {
                let val = match self.stack.pop() {
                    Some(v) => v,
                    None => return Err(JitCompileError::BadBytecode),
                };
                let ghost popped = *self;
                let r = self.store_variable(name.clone(), val);
                proof {
                    if r is Ok {
                        assert forall|n: Seq<char>| old(self).var_type(n) is Some implies #[trigger]
                            self.var_type(n) == old(self).var_type(n) by {
                            if n != name@ {
                                assert(self.var_type(n) == popped.var_type(n));
                            }
                        }
                    }
                }
                r
            },
            Instruction::LoadConst { value: Constant::Integer { value } } => {
                let imm = match value.to_i64() {
                    Some(i) => i,
                    None => return Err(JitCompileError::NotSupported),
                };
                let val = self.builder.ins_value(Inst::Iconst { out: Value(0), imm });
                self.stack.push(JitValue { val, ty: JitType::Int });
                Ok(())
            },
            Instruction::LoadConst { value: Constant::Float { bits } } => {
                let val = self.builder.ins_value(Inst::F64const { out: Value(0), bits: *bits });
                self.stack.push(JitValue { val, ty: JitType::Float });
                Ok(())
            },
            Instruction::ReturnValue => {
                let val = match self.stack.pop() {
                    Some(v) => v,
                    None => return Err(JitCompileError::BadBytecode),
                };
                match self.sig.ret {
                    Some(ty) => {
                        if val.ty != ty {
                            return Err(JitCompileError::NotSupported);
                        }
                    },
                    None => {
                        self.sig.ret = Some(val.ty);
                    },
                }
                self.builder.ins_effect(Inst::Return { val: val.val });
                Ok(())
            },
            Instruction::CompareOperation { op } => {
                // the right-hand operand is on top of the stack
                let b = match self.stack.pop() {
                    Some(v) => v,
                    None => return Err(JitCompileError::BadBytecode),
                };
                let a = match self.stack.pop() {
                    Some(v) => v,
                    None => return Err(JitCompileError::BadBytecode),
                };
                assert(self.stack@ =~= st.subrange(0, st.len() - 2));
                match (a.ty, b.ty) {
                    (JitType::Int, JitType::Int) => {
                        let cond = match op {
                            ComparisonOperator::Equal => IntCC::Equal,
                            ComparisonOperator::NotEqual => IntCC::NotEqual,
                            ComparisonOperator::Less => IntCC::SignedLessThan,
                            ComparisonOperator::LessOrEqual => IntCC::SignedLessThanOrEqual,
                            ComparisonOperator::Greater => IntCC::SignedGreaterThan,
                            ComparisonOperator::GreaterOrEqual => IntCC::SignedLessThanOrEqual,
                            _ => return Err(JitCompileError::NotSupported),
                        };
                        let val = self.builder.ins_value(
                            Inst::Icmp { out: Value(0), cond, a: a.val, b: b.val },
                        );
                        self.stack.push(JitValue { val, ty: JitType::Int });
                        Ok(())
                    },
                    _ => Err(JitCompileError::NotSupported),
                }
            },
            Instruction::BinaryOperation { op, .. } => {
                // the right-hand operand is on top of the stack
                let b = match self.stack.pop() {
                    Some(v) => v,
                    None => return Err(JitCompileError::BadBytecode),
                };
                let a = match self.stack.pop() {
                    Some(v) => v,
                    None => return Err(JitCompileError::BadBytecode),
                };
                assert(self.stack@ =~= st.subrange(0, st.len() - 2));
                match (a.ty, b.ty) {
                    (JitType::Int, JitType::Int) => match op {
                        BinaryOperator::Add => {
                            let (out, carry) = self.builder.ins_pair(
                                Inst::IaddIfcout { out: Value(0), flags: Value(0), a: a.val, b: b.val },
                            );
                            self.builder.ins_effect(Inst::TrapOverflow { flags: carry });
                            assert(self.builder.current_insts() =~= old(self).builder.current_insts()
                                + binary_emitted(*op, a, b, out, carry));
                            self.stack.push(JitValue { val: out, ty: JitType::Int });
                            Ok(())
                        },
                        BinaryOperator::Subtract => {
                            let (out, carry) = self.builder.ins_pair(
                                Inst::IsubIfbout { out: Value(0), flags: Value(0), a: a.val, b: b.val },
                            );
                            self.builder.ins_effect(Inst::TrapOverflow { flags: carry });
                            assert(self.builder.current_insts() =~= old(self).builder.current_insts()
                                + binary_emitted(*op, a, b, out, carry));
                            self.stack.push(JitValue { val: out, ty: JitType::Int });
                            Ok(())
                        },
                        _ => Err(JitCompileError::NotSupported),
                    },
                    (JitType::Float, JitType::Float) => {
                        let fop = match op {
                            BinaryOperator::Add => FloatOp::Add,
                            BinaryOperator::Subtract => FloatOp::Sub,
                            BinaryOperator::Multiply => FloatOp::Mul,
                            BinaryOperator::Divide => FloatOp::Div,
                            _ => return Err(JitCompileError::NotSupported),
                        };
                        let val = self.builder.ins_value(
                            Inst::FloatBinary { op: fop, out: Value(0), a: a.val, b: b.val },
                        );
                        self.stack.push(JitValue { val, ty: JitType::Float });
                        Ok(())
                    },
                    _ => Err(JitCompileError::NotSupported),
                }
            },
            _ => Err(JitCompileError::NotSupported),
        }
    }

    /// Makes the block of `label` the insertion point, first ending the
    /// current block with a jump into it when it is still open.
    fn enter_label(&mut self, label: Label) -> (r: Block)
        requires
            old(self).wf(),
            old(self).builder.has_room(1),
        ensures
            old(self).step_preserves(final(self), 1),
            final(self).builder.current == r,
            find_label(final(self).label_to_block@, label) == Some(r),
            find_label(old(self).label_to_block@, label) matches Some(b) ==> r == b,
            final(self).stack == old(self).stack,
            old(self).entered(Some(label), final(self)),
    {
        let block = self.resolve_label(label);
        let ghost resolved = *self;
        // An open block falls through into the labelled one.
        if !self.builder.is_filled() {
            self.builder.ins_effect(Inst::Jump { dest: block });
        }
        let ghost ended = *self;
        self.builder.switch_to_block(block);
        proof {
            assert forall|i: int| 0 <= i < self.label_to_block@.len() implies (
            #[trigger] self.label_to_block@[i]).1.0 < self.builder.blocks@.len() by {}
            let cur = old(self).builder.current.0 as int;
            if find_label(old(self).label_to_block@, label) is None {
                let nb = old(self).builder.blocks@.len() as int;
                assert(self.builder.blocks@[nb]@ == resolved.builder.blocks@[nb]@);
            }
            assert forall|i: int|
                0 <= i < old(self).builder.blocks@.len() && i != cur implies #[trigger] self.builder.blocks@[i]@
                == old(self).builder.blocks@[i]@ by {
                assert(self.builder.blocks@[i]@ == resolved.builder.blocks@[i]@);
            }
        }
        block
    }

    /// Translates the whole instruction stream in one forward pass. At each
    /// labelled offset the label's block becomes the insertion point;
    /// instructions that follow a terminator before the next label are
    /// skipped; the first failing instruction ends the pass with its error.
    pub fn compile(&mut self, bytecode: &CodeObject) -> (r: Result<(), JitCompileError>)
        requires
            old(self).wf(),
            old(self).builder.has_room(3 * bytecode.instructions@.len() as int),
        ensures
            old(self).step_preserves(final(self), 3 * bytecode.instructions@.len() as int),
            r is Ok ==> exists|tr: Seq<FunctionCompiler>|
                #![trigger scanned(tr, *bytecode)]
                tr.len() == bytecode.instructions@.len() + 1 && tr[0] == *old(self) && tr.last()
                    == *final(self) && scanned(tr, *bytecode),
            r is Ok ==> final(self).builder.filled(),
            r is Ok && no_idle_block(*old(self)) ==> all_blocks_ended(*final(self)),
            r is Err ==> (exists|tr: Seq<FunctionCompiler>, m: FunctionCompiler|
                #![trigger scanned(tr, *bytecode), tr.last().entered(label_at(bytecode.label_map@, tr.len() - 1), &m)]
                1 <= tr.len() <= bytecode.instructions@.len() && tr[0] == *old(self) && scanned(tr, *bytecode)
                    && tr.last().entered(label_at(bytecode.label_map@, tr.len() - 1), &m)
                    && !m.builder.filled() && r == m.step_result(
                    *bytecode,
                    bytecode.instructions@[tr.len() - 1],
)) || (exists|tr: Seq<FunctionCompiler>|
                #![trigger scanned(tr, *bytecode)]
                tr.len() == bytecode.instructions@.len() + 1 && tr[0] == *old(self)
                    && tr.last() == *final(self) && scanned(tr, *bytecode)
                    && !final(self).builder.filled() && r == Err::<(), JitCompileError>(
                    JitCompileError::BadBytecode,
                )),
    {
        let n = bytecode.instructions.len();
        let mut offset: usize = 0;
        let ghost mut tr: Seq<FunctionCompiler> = seq![*self];
        proof {
            lemma_step_preserves_refl(*self);
        }
        while offset < n
            invariant
                offset <= n,
                n == bytecode.instructions@.len(),
                old(self).step_preserves(self, 3 * offset),
                self.builder.has_room(3 * (n - offset)),
                tr.len() == offset + 1,
                tr[0] == *old(self),
                tr.last() == *self,
                scanned(tr, *bytecode),
                no_idle_block(*old(self)) ==> registered_upto(*self, *bytecode, offset as int)
                    && empty_blocks_pending(*self, *bytecode, offset as int),
            decreases n - offset,
        {
            let ghost start = *self;
            match bytecode.label_at_offset(offset) {
                Some(label) => {
                    self.enter_label(label);
                },
                None => {
                    proof {
                        lemma_step_preserves_refl(*self);
                    }
                },
            }
            let ghost mid = *self;
            assert(start.entered(label_at(bytecode.label_map@, offset as int), &mid));
            proof {
                if no_idle_block(*old(self)) {
                    lemma_enter_pending(start, *bytecode, offset as int, mid);
                }
            }
            // Instructions after a terminator are dead until the next label.
            if !self.builder.is_filled() {
                let ins = &bytecode.instructions[offset];
                let defined = match ins {
                    Instruction::Jump { target } => bytecode.enters_label(*target),
                    Instruction::JumpIfFalse { target } => bytecode.enters_label(*target),
                    _ => true,
                };
                if !defined {
                    assert(tr.last().entered(label_at(bytecode.label_map@, tr.len() - 1), &mid));
                    return Err(JitCompileError::BadBytecode);
                }
                match self.add_instruction(ins) {
                    Ok(()) => {
                        proof {
                            if no_idle_block(*old(self)) {
                                lemma_translate_pending(mid, *bytecode, offset as int, *self);
                            }
                        }
                    },
                    Err(e) => {
                        proof {
                            lemma_step_preserves_trans(start, mid, *self, 1, 2);
                            lemma_step_preserves_trans(*old(self), start, *self, 3 * offset, 3);
                            assert(tr.last().entered(label_at(bytecode.label_map@, tr.len() - 1), &mid));
                        }
                        return Err(e);
                    },
                }
            } else {
                proof {
                    lemma_step_preserves_refl(*self);
                }
            }
            proof {
                lemma_step_preserves_trans(start, mid, *self, 1, 2);
                lemma_step_preserves_trans(*old(self), start, *self, 3 * offset, 3);
                assert(scan_step(start, *bytecode, offset as int, *self));
                let tr2 = tr.push(*self);
                assert forall|k: int| 0 <= k < tr2.len() - 1 implies #[trigger] scan_step(
                    tr2[k],
                    *bytecode,
                    k,
                    tr2[k + 1],
                ) by {
                    if k < offset {
                        assert(tr2[k] == tr[k] && tr2[k + 1] == tr[k + 1]);
                    }
                }
                tr = tr2;
            }
            offset = offset + 1;
        }
        // A stream must not end inside an open block.
        if !self.builder.is_filled() {
            assert(scanned(tr, *bytecode));
            return Err(JitCompileError::BadBytecode);
        }
        proof {
            if no_idle_block(*old(self)) {
                assert forall|b: int| 0 <= b < self.builder.blocks@.len() implies ends_in_terminator(
                    #[trigger] self.builder.blocks@[b]@,
                ) by {
                    if b != self.builder.current.0 {
                        if self.builder.blocks@[b]@.len() == 0 {
                            let o = choose|o: int|
                                n <= o < n && #[trigger] label_at(bytecode.label_map@, o) is Some
                                    && find_label(self.label_to_block@, label_at(bytecode.label_map@, o)->0)
                                    == Some(Block(b as usize));
                        }
                    }
                }
            }
        }
        Ok(())
    }
}

/// A label found in a table is registered by one of its entries.
proof fn lemma_find_label_in(t: Seq<(Label, Block)>, label: Label)
    ensures
        find_label(t, label) matches Some(b) ==> exists|i: int| 0 <= i < t.len() && #[trigger] t[i] == (label, b),
    decreases t.len(),
{
    if t.len() > 0 && t.last().0 != label {
        lemma_find_label_in(t.drop_last(), label);
        if let Some(b) = find_label(t, label) {
            let i = choose|i: int| 0 <= i < t.drop_last().len() && #[trigger] t.drop_last()[i] == (label, b);
            assert(t[i] == (label, b));
        }
    }
}

/// One offset `k` of the scan took the compiler from `s` to `t`: its label,
/// if any, was entered; then the instruction was skipped, when the block is
/// already ended, or translated successfully.
pub open spec fn scan_step(s: FunctionCompiler, code: CodeObject, k: int, t: FunctionCompiler) -> bool {
    exists|m: FunctionCompiler|
        #[trigger] s.entered(label_at(code.label_map@, k), &m) && ((m.builder.filled() && t == m) || (
        !m.builder.filled() && m.step_result(code, code.instructions@[k]) is Ok && m.translated(
            code.instructions@[k],
            &t,
        )))
}

/// The scan went through offsets `0..tr.len() - 1`, with `tr[k]` the state
/// before offset `k`.
pub open spec fn scanned(tr: Seq<FunctionCompiler>, code: CodeObject) -> bool {
    forall|k: int| 0 <= k < tr.len() - 1 ==> #[trigger] scan_step(tr[k], code, k, tr[k + 1])
}

/// Every label that names an offset before `off` has a block.
pub open spec fn registered_upto(s: FunctionCompiler, code: CodeObject, off: int) -> bool {
    forall|o: int|
        0 <= o < off && #[trigger] label_at(code.label_map@, o) is Some ==> find_label(
            s.label_to_block@,
            label_at(code.label_map@, o)->0,
        ) is Some
}

/// Every empty block other than the current one is the block of a label that
/// names an offset from `off` on, so the scan still enters it.
pub open spec fn empty_blocks_pending(s: FunctionCompiler, code: CodeObject, off: int) -> bool {
    forall|b: int|
        0 <= b < s.builder.blocks@.len() && b != s.builder.current.0 && (
        #[trigger] s.builder.blocks@[b]@).len() == 0 ==> exists|o: int|
            off <= o < code.instructions@.len() && #[trigger] label_at(code.label_map@, o) is Some
                && find_label(s.label_to_block@, label_at(code.label_map@, o)->0) == Some(
                Block(b as usize),
            )
}

/// Every block of the graph ends in a terminator.
pub open spec fn all_blocks_ended(s: FunctionCompiler) -> bool {
    forall|b: int|
        0 <= b < s.builder.blocks@.len() ==> ends_in_terminator(#[trigger] s.builder.blocks@[b]@)
}

/// No block other than the current one is empty.
pub open spec fn no_idle_block(s: FunctionCompiler) -> bool {
    forall|b: int|
        0 <= b < s.builder.blocks@.len() && b != s.builder.current.0 ==> (
        #[trigger] s.builder.blocks@[b]@).len() > 0
}

proof fn lemma_enter_pending(s: FunctionCompiler, code: CodeObject, k: int, m: FunctionCompiler)
    requires
        s.wf(),
        s.builder.has_room(1),
        0 <= k < code.instructions@.len(),
        s.entered(label_at(code.label_map@, k), &m),
        registered_upto(s, code, k),
        empty_blocks_pending(s, code, k),
    ensures
        registered_upto(m, code, k + 1),
        empty_blocks_pending(m, code, k + 1),
{
    let lbl = label_at(code.label_map@, k);
    assert forall|o: int|
        0 <= o < k + 1 && #[trigger] label_at(code.label_map@, o) is Some implies find_label(
        m.label_to_block@,
        label_at(code.label_map@, o)->0,
    ) is Some by {
        let l2 = label_at(code.label_map@, o)->0;
        if o < k {
            lemma_step_keeps_label(s, m, lbl, l2, find_label(s.label_to_block@, l2)->0);
        } else {
            lemma_label_entered(s, l2, m);
        }
    }
    assert forall|b: int|
        0 <= b < m.builder.blocks@.len() && b != m.builder.current.0 && (
        #[trigger] m.builder.blocks@[b]@).len() == 0 implies exists|o: int|
        k + 1 <= o < code.instructions@.len() && #[trigger] label_at(code.label_map@, o) is Some
            && find_label(m.label_to_block@, label_at(code.label_map@, o)->0) == Some(
            Block(b as usize),
        ) by {
        if let Some(l) = lbl {
            assert(m.builder.current == s.target_block(l));
            if find_label(s.label_to_block@, l) is None {
                assert(b != s.builder.blocks@.len());
            }
            if b == s.builder.current.0 {
                if s.builder.filled() {
                    assert(m.builder.blocks@[b]@.len() > 0);
                } else {
                    assert(m.builder.blocks@[b]@.len() > 0);
                }
            }
            assert(b != s.builder.current.0);
            assert(b < s.builder.blocks@.len());
            assert(m.builder.blocks@[b]@ == s.builder.blocks@[b]@);
        }
        let o = choose|o: int|
            k <= o < code.instructions@.len() && #[trigger] label_at(code.label_map@, o) is Some
                && find_label(s.label_to_block@, label_at(code.label_map@, o)->0) == Some(
                Block(b as usize),
            );
        let l2 = label_at(code.label_map@, o)->0;
        lemma_step_keeps_label(s, m, lbl, l2, Block(b as usize));
        if o == k {
            assert(lbl == Some(l2));
            assert(s.target_block(l2) == Block(b as usize));
            assert(m.builder.current == Block(b as usize));
        }
        assert(o != k);
    }
}

proof fn lemma_translate_pending(m: FunctionCompiler, code: CodeObject, k: int, t: FunctionCompiler)
    requires
        m.wf(),
        m.builder.has_room(2),
        0 <= k < code.instructions@.len(),
        m.step_result(code, code.instructions@[k]) is Ok,
        m.translated(code.instructions@[k], &t),
        registered_upto(m, code, k + 1),
        empty_blocks_pending(m, code, k + 1),
    ensures
        registered_upto(t, code, k + 1),
        empty_blocks_pending(t, code, k + 1),
{
    let ins = code.instructions@[k];
    assert forall|o: int|
        0 <= o < k + 1 && #[trigger] label_at(code.label_map@, o) is Some implies find_label(
        t.label_to_block@,
        label_at(code.label_map@, o)->0,
    ) is Some by {
        let l2 = label_at(code.label_map@, o)->0;
        lemma_translation_keeps_label(m, ins, t, l2, find_label(m.label_to_block@, l2)->0);
    }
    let nb = m.builder.blocks@.len() as int;
    assert forall|b: int|
        0 <= b < t.builder.blocks@.len() && b != t.builder.current.0 && (
        #[trigger] t.builder.blocks@[b]@).len() == 0 implies exists|o: int|
        k + 1 <= o < code.instructions@.len() && #[trigger] label_at(code.label_map@, o) is Some
            && find_label(t.label_to_block@, label_at(code.label_map@, o)->0) == Some(
            Block(b as usize),
        ) by {
        let target = match ins {
            Instruction::Jump { target } => target,
            Instruction::JumpIfFalse { target } => target,
            _ => Label(0),
        };
        let is_jump = ins is Jump || ins is JumpIfFalse;
        if is_jump && b == nb && find_label(m.label_to_block@, target) is None {
            assert(enters(code, target));
            let o = choose|o: int|
                0 <= o < code.instructions@.len() && #[trigger] label_at(code.label_map@, o) == Some(
                    target,
                );
            assert(label_at(code.label_map@, o) is Some);
            assert(o >= k + 1);
            assert(t.label_to_block@.drop_last() =~= m.label_to_block@);
        } else {
            match ins {
                Instruction::Jump { .. } => {},
                Instruction::JumpIfFalse { .. } => {
                    if b == m.builder.current.0 {
                        assert(t.builder.blocks@[b]@.len() > 0);
                    }
                },
                _ => {
                    assert(t.builder.blocks@.len() == nb);
                    assert(t.builder.current == m.builder.current);
                },
            }
            assert(b < nb);
            assert(b != m.builder.current.0);
            assert(t.builder.blocks@[b]@ == m.builder.blocks@[b]@);
            let o = choose|o: int|
                k + 1 <= o < code.instructions@.len() && #[trigger] label_at(code.label_map@, o) is Some
                    && find_label(m.label_to_block@, label_at(code.label_map@, o)->0) == Some(
                    Block(b as usize),
                );
            lemma_translation_keeps_label(m, ins, t, label_at(code.label_map@, o)->0, Block(b as usize));
        }
    }
}

/// Every state steps to itself.
proof fn lemma_step_preserves_refl(s: FunctionCompiler)
    requires
        s.wf(),
    ensures
        s.step_preserves(&s, 0),
{
}

/// Steps compose, their bounds adding up.
proof fn lemma_step_preserves_trans(
    a: FunctionCompiler,
    b: FunctionCompiler,
    c: FunctionCompiler,
    n: int,
    m: int,
)
    requires
        a.step_preserves(&b, n),
        b.step_preserves(&c, m),
    ensures
        a.step_preserves(&c, n + m),
{
    assert forall|name: Seq<char>| a.var_type(name) is Some implies #[trigger] c.var_type(name)
        == a.var_type(name) by {
        assert(b.var_type(name) == a.var_type(name));
    }
}

} // verus!
