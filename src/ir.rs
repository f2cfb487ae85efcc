use vstd::prelude::*;

use crate::types::JitType;

verus! {

/// A basic block of the graph, by index.
#[derive(Clone, Copy, Debug, PartialEq, Eq, Structural)]
pub struct Block(pub usize);

/// An SSA value, by number.
#[derive(Clone, Copy, Debug, PartialEq, Eq, Structural)]
pub struct Value(pub usize);

/// A mutable local slot, by index.
#[derive(Clone, Copy, Debug, PartialEq, Eq, Structural)]
pub struct Variable(pub usize);

/// Signed integer comparison conditions.
#[derive(Clone, Copy, Debug, PartialEq, Eq, Structural)]
pub enum IntCC {
    Equal,
    NotEqual,
    SignedLessThan,
    SignedLessThanOrEqual,
    SignedGreaterThan,
    SignedGreaterThanOrEqual,
}

/// Floating-point binary operations.
#[derive(Clone, Copy, Debug, PartialEq, Eq, Structural)]
pub enum FloatOp {
    Add,
    Sub,
    Mul,
    Div,
}

/// A typed instruction of the graph.
#[derive(Clone, Copy, Debug, PartialEq, Eq, Structural)]
pub enum Inst {
    /// Unconditional jump: ends the block.
    Jump { dest: Block },
    /// Branch to `dest` when `cond` is zero; the block goes on.
    Brz { cond: Value, dest: Block },
    /// Jump to the block laid out next: ends the block.
    Fallthrough { dest: Block },
    /// Return `val`: ends the block.
    Return { val: Value },
    Iconst { out: Value, imm: i64 },
    /// A float constant, as the bits of an IEEE 754 double.
    F64const { out: Value, bits: u64 },
    UseVar { out: Value, var: Variable },
    DefVar { var: Variable, val: Value },
    /// Integer comparison: `out` is 1 when `a cond b` holds, else 0.
    Icmp { out: Value, cond: IntCC, a: Value, b: Value },
    /// `out = a + b`, with `flags` set on signed overflow.
    IaddIfcout { out: Value, flags: Value, a: Value, b: Value },
    /// `out = a - b`, with `flags` set on signed overflow.
    IsubIfbout { out: Value, flags: Value, a: Value, b: Value },
    /// Trap with an integer-overflow fault when `flags` report overflow.
    TrapOverflow { flags: Value },
    /// Floating-point arithmetic, without traps.
    FloatBinary { op: FloatOp, out: Value, a: Value, b: Value },
}

impl Inst {
    pub open spec fn is_terminator(self) -> bool {
        match self {
            Inst::Jump { .. } | Inst::Fallthrough { .. } | Inst::Return { .. } => true,
            _ => false,
        }
    }

    pub open spec fn is_trap(self) -> bool {
        self is TrapOverflow
    }
}

/// No instruction of `b` comes after a terminator.
pub open spec fn no_inst_after_terminator(b: Seq<Inst>) -> bool {
    forall|i: int| 0 <= i < b.len() - 1 ==> !(#[trigger] b[i]).is_terminator()
}

/// `b` ends with a terminator.
pub open spec fn ends_in_terminator(b: Seq<Inst>) -> bool {
    b.len() > 0 && b.last().is_terminator()
}

/// Builds the graph of one function: blocks of typed instructions, an
/// insertion point, and declared variables.
pub struct FunctionBuilder {
    /// The instructions of each block.
    pub blocks: Vec<Vec<Inst>>,
    /// The parameter values of each block.
    pub block_params: Vec<Vec<Value>>,
    /// The type of each declared variable.
    pub var_types: Vec<JitType>,
    /// The block instructions are appended to.
    pub current: Block,
    /// The number of the next fresh value.
    pub next_value: usize,
}

impl FunctionBuilder {
    /// The graph is well formed: no block holds an instruction after a
    /// terminator, and every block but the current one is either empty
    /// (never entered) or ends in a terminator.
    pub open spec fn wf(&self) -> bool {
        &&& self.current.0 < self.blocks@.len()
        &&& self.block_params@.len() == self.blocks@.len()
        &&& forall|b: int|
            0 <= b < self.blocks@.len() ==> no_inst_after_terminator(#[trigger] self.blocks@[b]@)
        &&& forall|b: int|
            0 <= b < self.blocks@.len() && b != self.current.0 ==> (#[trigger] self.blocks@[b]@).len()
                == 0 || ends_in_terminator(self.blocks@[b]@)
    }

    /// The instructions of the current block.
    pub open spec fn current_insts(&self) -> Seq<Inst> {
        self.blocks@[self.current.0 as int]@
    }

    /// The current block has been ended by a terminator.
    pub open spec fn filled(&self) -> bool {
        ends_in_terminator(self.current_insts())
    }

    /// Room for `n` more blocks and `n` more values.
    pub open spec fn has_room(&self, n: int) -> bool {
        &&& self.blocks@.len() + n < usize::MAX
        &&& self.next_value + n < usize::MAX
    }

    /// Only the current block changed, by `extra` appended to it.
    pub open spec fn appended(&self, old: &Self, extra: Seq<Inst>) -> bool {
        &&& self.blocks@.len() == old.blocks@.len()
        &&& self.block_params@ == old.block_params@
        &&& self.current == old.current
        &&& self.current_insts() == old.current_insts() + extra
        &&& forall|b: int|
            0 <= b < self.blocks@.len() && b != self.current.0 ==> #[trigger] self.blocks@[b]@
                == old.blocks@[b]@
    }

    /// A graph with one entry block, which holds `param_count` parameter values
    /// and is the insertion point.
    pub fn new(param_count: usize) -> (r: Self)
        ensures
            r.wf(),
            r.blocks@.len() == 1,
            r.blocks@[0]@.len() == 0,
            r.current == Block(0),
            r.next_value == param_count,
            r.block_params@[0]@ == Seq::new(param_count as nat, |i: int| Value(i as usize)),
            r.var_types@.len() == 0,
    {
        let mut params: Vec<Value> = Vec::new();
        let mut i: usize = 0;
        while i < param_count
            invariant
                i <= param_count,
                params@ == Seq::new(i as nat, |k: int| Value(k as usize)),
            decreases param_count - i,
        {
            params.push(Value(i));
            i = i + 1;
        }
        let mut blocks: Vec<Vec<Inst>> = Vec::new();
        blocks.push(Vec::new());
        let mut block_params: Vec<Vec<Value>> = Vec::new();
        block_params.push(params);
        FunctionBuilder {
            blocks,
            block_params,
            var_types: Vec::new(),
            current: Block(0),
            next_value: param_count,
        }
    }

    /// The parameter values of `block`.
    pub fn block_params(&self, block: Block) -> (r: &Vec<Value>)
        requires
            block.0 < self.block_params@.len(),
        ensures
            r@ == self.block_params@[block.0 as int]@,
    {
        &self.block_params[block.0]
    }

    /// Adds a new, empty block without parameters.
    pub fn create_block(&mut self) -> (r: Block)
        requires
            old(self).wf(),
            old(self).blocks@.len() + 1 < usize::MAX,
        ensures
            final(self).wf(),
            r.0 == old(self).blocks@.len(),
            final(self).blocks@ == old(self).blocks@.push(final(self).blocks@[r.0 as int]),
            final(self).blocks@[r.0 as int]@.len() == 0,
            final(self).block_params@.len() == final(self).blocks@.len(),
            final(self).var_types@ == old(self).var_types@,
            final(self).current == old(self).current,
            final(self).next_value == old(self).next_value,
    {
        let r = Block(self.blocks.len());
        self.blocks.push(Vec::new());
        self.block_params.push(Vec::new());
        proof {
            assert forall|b: int|
                0 <= b < self.blocks@.len() implies no_inst_after_terminator(
                #[trigger] self.blocks@[b]@,
            ) by {
                if b < old(self).blocks@.len() {
                    assert(self.blocks@[b] == old(self).blocks@[b]);
                }
            }
            assert forall|b: int|
                0 <= b < self.blocks@.len() && b != self.current.0 implies (
                #[trigger] self.blocks@[b]@).len() == 0 || ends_in_terminator(self.blocks@[b]@) by {
                if b < old(self).blocks@.len() {
                    assert(self.blocks@[b] == old(self).blocks@[b]);
                }
            }
        }
        r
    }

    /// Whether the current block has been ended by a terminator.
    pub fn is_filled(&self) -> (r: bool)
        requires
            self.wf(),
        ensures
            r == self.filled(),
    {
        let insts = &self.blocks[self.current.0];
        if insts.len() == 0 {
            false
        } else {
            match insts[insts.len() - 1] {
                Inst::Jump { .. } | Inst::Fallthrough { .. } | Inst::Return { .. } => true,
                _ => false,
            }
        }
    }

    /// Moves the insertion point to `block`. The block being left must be
    /// empty or ended.
    pub fn switch_to_block(&mut self, block: Block)
        requires
            old(self).wf(),
            block.0 < old(self).blocks@.len(),
            old(self).filled() || old(self).current_insts().len() == 0,
        ensures
            final(self).wf(),
            final(self).current == block,
            final(self).blocks@ == old(self).blocks@,
            final(self).block_params@ == old(self).block_params@,
            final(self).var_types@ == old(self).var_types@,
            final(self).next_value == old(self).next_value,
    {
        self.current = block;
    }

    /// Appends `inst` to the current block, which must not be ended.
    fn append(&mut self, inst: Inst)
        requires
            old(self).wf(),
            !old(self).filled(),
        ensures
            final(self).wf(),
            final(self).appended(old(self), seq![inst]),
            final(self).next_value == old(self).next_value,
            final(self).var_types == old(self).var_types,
    {
        let cur = self.current.0;
        let mut insts: Vec<Inst> = Vec::new();
        self.blocks.set_and_swap(cur, &mut insts);
        insts.push(inst);
        self.blocks.set_and_swap(cur, &mut insts);
        proof {
            let ob = old(self).blocks@[cur as int]@;
            assert(self.blocks@[cur as int]@ == ob.push(inst));
            assert(ob.push(inst) == ob + seq![inst]);
            assert forall|b: int|
                0 <= b < self.blocks@.len() implies no_inst_after_terminator(
                #[trigger] self.blocks@[b]@,
            ) by {
                if b != cur {
                    assert(self.blocks@[b] == old(self).blocks@[b]);
                } else {
                    assert forall|i: int| 0 <= i < self.blocks@[b]@.len() - 1 implies !(
                    #[trigger] self.blocks@[b]@[i]).is_terminator() by {
                        if i < ob.len() - 1 {
                            assert(ob[i] == self.blocks@[b]@[i]);
                        } else {
                            assert(i == ob.len() - 1);
                            assert(!ob.last().is_terminator() || ob.len() == 0);
                        }
                    }
                }
            }
            assert forall|b: int|
                0 <= b < self.blocks@.len() && b != self.current.0 implies #[trigger] self.blocks@[b]@
                == old(self).blocks@[b]@ by {
                assert(self.blocks@[b] == old(self).blocks@[b]);
            }
        }
    }

    /// A fresh value number.
    fn fresh_value(&mut self) -> (r: Value)
        requires
            old(self).next_value + 1 < usize::MAX,
        ensures
            r.0 == old(self).next_value,
            final(self).next_value == old(self).next_value + 1,
            final(self).blocks == old(self).blocks,
            final(self).block_params == old(self).block_params,
            final(self).var_types == old(self).var_types,
            final(self).current == old(self).current,
    {
        let r = Value(self.next_value);
        self.next_value = self.next_value + 1;
        r
    }

    /// Declares a new variable of type `ty`.
    pub fn declare_var(&mut self, ty: JitType) -> (r: Variable)
        requires
            old(self).wf(),
        ensures
            final(self).wf(),
            r.0 == old(self).var_types@.len(),
            final(self).var_types@ == old(self).var_types@.push(ty),
            final(self).blocks == old(self).blocks,
            final(self).block_params == old(self).block_params,
            final(self).current == old(self).current,
            final(self).next_value == old(self).next_value,
    {
        let r = Variable(self.var_types.len());
        self.var_types.push(ty);
        r
    }

    /// Appends an instruction that produces no value and does not end the block.
    pub fn ins_effect(&mut self, inst: Inst)
        requires
            old(self).wf(),
            !old(self).filled(),
        ensures
            final(self).wf(),
            final(self).appended(old(self), seq![inst]),
            final(self).next_value == old(self).next_value,
            final(self).var_types == old(self).var_types,
    {
        self.append(inst);
    }

    /// Appends an instruction built around one fresh value, and returns that value.
    pub fn ins_value(&mut self, make: Inst) -> (r: Value)
        requires
            old(self).wf(),
            !old(self).filled(),
            !make.is_terminator(),
            old(self).has_room(1),
        ensures
            final(self).wf(),
            r.0 == old(self).next_value,
            final(self).next_value == old(self).next_value + 1,
            final(self).appended(old(self), seq![with_out(make, r)]),
            final(self).var_types == old(self).var_types,
    {
        let r = self.fresh_value();
        self.append(with_out(make, r));
        r
    }

    /// Appends an instruction built around two fresh values, a result and
    /// overflow flags, and returns both.
    pub fn ins_pair(&mut self, make: Inst) -> (r: (Value, Value))
        requires
            old(self).wf(),
            !old(self).filled(),
            !make.is_terminator(),
            old(self).has_room(2),
        ensures
            final(self).wf(),
            r.0.0 == old(self).next_value,
            r.1.0 == old(self).next_value + 1,
            final(self).next_value == old(self).next_value + 2,
            final(self).appended(old(self), seq![with_outs(make, r.0, r.1)]),
            final(self).var_types == old(self).var_types,
    {
        let out = self.fresh_value();
        let flags = self.fresh_value();
        self.append(with_outs(make, out, flags));
        (out, flags)
    }
}

/// `inst` with its result and overflow-flag values set to `out` and `flags`.
pub open spec fn with_outs_spec(inst: Inst, out: Value, flags: Value) -> Inst {
    match inst {
        Inst::IaddIfcout { a, b, .. } => Inst::IaddIfcout { out, flags, a, b },
        Inst::IsubIfbout { a, b, .. } => Inst::IsubIfbout { out, flags, a, b },
        _ => inst,
    }
}

#[verifier::when_used_as_spec(with_outs_spec)]
pub fn with_outs(inst: Inst, out: Value, flags: Value) -> (r: Inst)
    ensures
        r == with_outs_spec(inst, out, flags),
{
    match inst {
        Inst::IaddIfcout { a, b, .. } => Inst::IaddIfcout { out, flags, a, b },
        Inst::IsubIfbout { a, b, .. } => Inst::IsubIfbout { out, flags, a, b },
        _ => inst,
    }
}

/// `inst` with its result value set to `out`.
pub open spec fn with_out_spec(inst: Inst, out: Value) -> Inst {
    match inst {
        Inst::Iconst { imm, .. } => Inst::Iconst { out, imm },
        Inst::F64const { bits, .. } => Inst::F64const { out, bits },
        Inst::UseVar { var, .. } => Inst::UseVar { out, var },
        Inst::Icmp { cond, a, b, .. } => Inst::Icmp { out, cond, a, b },
        Inst::FloatBinary { op, a, b, .. } => Inst::FloatBinary { op, out, a, b },
        _ => inst,
    }
}

#[verifier::when_used_as_spec(with_out_spec)]
pub fn with_out(inst: Inst, out: Value) -> (r: Inst)
    ensures
        r == with_out_spec(inst, out),
{
    match inst {
        Inst::Iconst { imm, .. } => Inst::Iconst { out, imm },
        Inst::F64const { bits, .. } => Inst::F64const { out, bits },
        Inst::UseVar { var, .. } => Inst::UseVar { out, var },
        Inst::Icmp { cond, a, b, .. } => Inst::Icmp { out, cond, a, b },
        Inst::FloatBinary { op, a, b, .. } => Inst::FloatBinary { op, out, a, b },
        _ => inst,
    }
}

} // verus!
