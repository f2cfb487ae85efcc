use vstd::prelude::*;

use crate::bytecode::{label_at, BinaryOperator, CodeObject, ComparisonOperator, Instruction, Label, NameScope};
use crate::compiler::{find_label, scan_step, scanned, FunctionCompiler};
use crate::ir::{Block, Inst};
use crate::types::{JitCompileError, JitType};

verus! {

/// A jump goes to the block of its target label, the one already
/// registered or a new one, and leaves the label registered for that block.
pub proof fn lemma_jump_target_resolves(s: FunctionCompiler, target: Label, t: FunctionCompiler)
    requires
        s.translated(Instruction::Jump { target }, &t),
    ensures
        t.builder.blocks@[s.builder.current.0 as int]@.last() == (Inst::Jump {
            dest: s.target_block(target),
        }),
        find_label(t.label_to_block@, target) == Some(s.target_block(target)),
{
    if find_label(s.label_to_block@, target) is None {
        assert(t.label_to_block@.drop_last() =~= s.label_to_block@);
    }
}

/// A conditional jump branches to the block of its target label and leaves
/// the label registered for that block.
pub proof fn lemma_branch_target_resolves(
    s: FunctionCompiler,
    target: Label,
    t: FunctionCompiler,
)
    requires
        s.translated(Instruction::JumpIfFalse { target }, &t),
    ensures
        t.builder.blocks@[s.builder.current.0 as int]@[s.builder.current_insts().len() as int]
            == (Inst::Brz { cond: s.stack@.last().val, dest: s.target_block(target) }),
        find_label(t.label_to_block@, target) == Some(s.target_block(target)),
{
    if find_label(s.label_to_block@, target) is None {
        assert(t.label_to_block@.drop_last() =~= s.label_to_block@);
    }
}

/// Reaching a labelled offset makes the label's block the insertion point,
/// and leaves the label registered for it.
pub proof fn lemma_label_entered(s: FunctionCompiler, label: Label, t: FunctionCompiler)
    requires
        s.entered(Some(label), &t),
    ensures
        t.builder.current == s.target_block(label),
        find_label(t.label_to_block@, label) == Some(s.target_block(label)),
{
    if find_label(s.label_to_block@, label) is None {
        assert(t.label_to_block@.drop_last() =~= s.label_to_block@);
    }
}

/// One label, one block: once a label has a block, every later step of the
/// scan keeps it, so forward jumps, the label's own offset and backward
/// jumps all reach that same block.
pub proof fn lemma_label_block_is_stable(
    tr: Seq<FunctionCompiler>,
    code: CodeObject,
    label: Label,
    b: Block,
    i: int,
    j: int,
)
    requires
        scanned(tr, code),
        0 <= i <= j < tr.len(),
        find_label(tr[i].label_to_block@, label) == Some(b),
    ensures
        find_label(tr[j].label_to_block@, label) == Some(b),
        tr[j].target_block(label) == b,
    decreases j - i,
{
    if i < j {
        lemma_label_block_is_stable(tr, code, label, b, i, j - 1);
        let k = j - 1;
        assert(scan_step(tr[k], code, k, tr[k + 1]));
        assert(k + 1 == j);
        let s = tr[k];
        let t = tr[k + 1];
        let m = choose|m: FunctionCompiler|
            #[trigger] s.entered(label_at(code.label_map@, j - 1), &m) && ((m.builder.filled()
                && t == m) || (!m.builder.filled() && m.step_result(code, code.instructions@[j - 1])
                is Ok && m.translated(code.instructions@[j - 1], &t)));
        lemma_step_keeps_label(s, m, label_at(code.label_map@, j - 1), label, b);
        if !(m.builder.filled() && t == m) {
            lemma_translation_keeps_label(m, code.instructions@[j - 1], t, label, b);
        }
    }
}

/// Resolving one label keeps every registered label's block.
pub proof fn lemma_resolution_keeps_label(s: FunctionCompiler, t: FunctionCompiler, l: Label, label: Label, b: Block)
    requires
        s.target_resolved(l, &t),
        find_label(s.label_to_block@, label) == Some(b),
    ensures
        find_label(t.label_to_block@, label) == Some(b),
{
    if find_label(s.label_to_block@, l) is None {
        assert(l != label);
        lemma_other_label_unaffected(s.label_to_block@, label, l, Block(s.builder.blocks@.len() as usize));
    }
}

/// Entering a label keeps every registered label's block.
pub proof fn lemma_step_keeps_label(s: FunctionCompiler, m: FunctionCompiler, lbl: Option<Label>, label: Label, b: Block)
    requires
        s.entered(lbl, &m),
        find_label(s.label_to_block@, label) == Some(b),
    ensures
        find_label(m.label_to_block@, label) == Some(b),
{
    if let Some(l) = lbl {
        lemma_resolution_keeps_label(s, m, l, label, b);
    }
}

/// Translating an instruction keeps every registered label's block.
pub proof fn lemma_translation_keeps_label(s: FunctionCompiler, ins: Instruction, t: FunctionCompiler, label: Label, b: Block)
    requires
        s.translated(ins, &t),
        find_label(s.label_to_block@, label) == Some(b),
    ensures
        find_label(t.label_to_block@, label) == Some(b),
{
    match ins {
        Instruction::Jump { target } => lemma_resolution_keeps_label(s, t, target, label, b),
        Instruction::JumpIfFalse { target } => lemma_resolution_keeps_label(s, t, target, label, b),
        _ => {},
    }
}

/// Registering one label leaves the block of every other label as it was.
pub proof fn lemma_other_label_unaffected(
    table: Seq<(Label, Block)>,
    label: Label,
    other: Label,
    b: Block,
)
    requires
        other != label,
    ensures
        find_label(table.push((other, b)), label) == find_label(table, label),
{
    assert(table.push((other, b)).drop_last() =~= table);
}

/// In a binary operation the top of the stack is the right-hand operand and
/// the value below it the left-hand one.
pub proof fn lemma_binary_right_operand_on_top(
    s: FunctionCompiler,
    op: BinaryOperator,
    inplace: bool,
    t: FunctionCompiler,
)
    requires
        s.outcome(Instruction::BinaryOperation { op, inplace }) is Ok,
        s.translated(Instruction::BinaryOperation { op, inplace }, &t),
    ensures
        ({
            let st = s.stack@;
            let first = t.builder.current_insts()[s.builder.current_insts().len() as int];
            match first {
                Inst::IaddIfcout { a, b, .. } => a == st[st.len() - 2].val && b == st.last().val,
                Inst::IsubIfbout { a, b, .. } => a == st[st.len() - 2].val && b == st.last().val,
                Inst::FloatBinary { a, b, .. } => a == st[st.len() - 2].val && b == st.last().val,
                _ => false,
            }
        }),
{
    let k = s.builder.current_insts().len() as int;
    assert(t.builder.current_insts().subrange(k, t.builder.current_insts().len() as int) =~= crate::compiler::binary_emitted(
        op,
        s.stack@[s.stack@.len() - 2],
        s.stack@.last(),
        crate::ir::Value(s.builder.next_value),
        crate::ir::Value((s.builder.next_value + 1) as usize),
    ));
}

/// In a comparison the top of the stack is the right-hand operand and the
/// value below it the left-hand one.
pub proof fn lemma_compare_right_operand_on_top(
    s: FunctionCompiler,
    op: ComparisonOperator,
    t: FunctionCompiler,
)
    requires
        s.outcome(Instruction::CompareOperation { op }) is Ok,
        s.translated(Instruction::CompareOperation { op }, &t),
    ensures
        ({
            let st = s.stack@;
            match t.builder.current_insts().last() {
                Inst::Icmp { a, b, .. } => a == st[st.len() - 2].val && b == st.last().val,
                _ => false,
            }
        }),
{
}

/// Integer addition and subtraction end with an overflow trap; float
/// arithmetic appends no trap at all.
pub proof fn lemma_int_arith_traps_float_does_not(
    s: FunctionCompiler,
    op: BinaryOperator,
    inplace: bool,
    t: FunctionCompiler,
)
    requires
        s.outcome(Instruction::BinaryOperation { op, inplace }) is Ok,
        s.translated(Instruction::BinaryOperation { op, inplace }, &t),
    ensures
        s.stack@[s.stack@.len() - 2].ty == JitType::Int ==> t.builder.current_insts().last() is TrapOverflow,
        s.stack@[s.stack@.len() - 2].ty == JitType::Float ==> forall|i: int|
            s.builder.current_insts().len() <= i < t.builder.current_insts().len()
                ==> !(#[trigger] t.builder.current_insts()[i]).is_trap(),
{
    let k = s.builder.current_insts().len() as int;
    let e = crate::compiler::binary_emitted(
        op,
        s.stack@[s.stack@.len() - 2],
        s.stack@.last(),
        crate::ir::Value(s.builder.next_value),
        crate::ir::Value((s.builder.next_value + 1) as usize),
    );
    assert forall|i: int| k <= i < t.builder.current_insts().len() implies #[trigger] t.builder.current_insts()[i] == e[i - k] by {}
}

/// A name keeps the type of its first store: storing a value of another
/// type under a bound name is rejected as not supported, and a store that
/// succeeds leaves every bound name with the type it had.
pub proof fn lemma_local_type_is_stable(s: FunctionCompiler, name: String, t: FunctionCompiler)
    requires
        s.stack@.len() > 0,
        s.translated(Instruction::StoreName { name, scope: NameScope::Local }, &t) || s.outcome(
            Instruction::StoreName { name, scope: NameScope::Local },
        ) is Err,
        s.var_type(name@) is Some,
    ensures
        s.var_type(name@) != Some(s.stack@.last().ty) ==> s.outcome(
            Instruction::StoreName { name, scope: NameScope::Local },
        ) == Err::<(), JitCompileError>(JitCompileError::NotSupported),
        s.outcome(Instruction::StoreName { name, scope: NameScope::Local }) is Ok ==> t.var_type(
            name@,
        ) == s.var_type(name@),
{
}

} // verus!
