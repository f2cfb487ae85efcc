use rustpython_jit::{
    BinaryOperator, Block, CodeObject, ComparisonOperator, Constant, FloatOp, FunctionBuilder,
    FunctionCompiler, Inst, Instruction, IntCC, IntLiteral, JitCompileError, JitType, Label,
    NameScope, Value,
};

fn int_const(v: u64) -> Constant {
    Constant::Integer { value: IntLiteral { negative: false, magnitude: vec![v] } }
}

fn load(name: &str) -> Instruction {
    Instruction::LoadName { name: name.to_string(), scope: NameScope::Local }
}

fn store(name: &str) -> Instruction {
    Instruction::StoreName { name: name.to_string(), scope: NameScope::Local }
}

fn compiler(args: &[(&str, JitType)]) -> FunctionCompiler {
    let builder = FunctionBuilder::new(args.len());
    let names: Vec<String> = args.iter().map(|a| a.0.to_string()).collect();
    let types: Vec<JitType> = args.iter().map(|a| a.1).collect();
    FunctionCompiler::new(builder, &names, &types, Block(0))
}

fn run(args: &[(&str, JitType)], instructions: Vec<Instruction>, labels: Vec<(Label, usize)>)
    -> (FunctionCompiler, Result<(), JitCompileError>) {
    let mut c = compiler(args);
    let code = CodeObject { instructions, label_map: labels };
    let r = c.compile(&code);
    (c, r)
}

fn is_terminator(i: &Inst) -> bool {
    matches!(i, Inst::Jump { .. } | Inst::Fallthrough { .. } | Inst::Return { .. })
}

#[test]
fn add_two_ints_returns_int() {
    let (c, r) = run(
        &[("x", JitType::Int), ("y", JitType::Int)],
        vec![
            load("x"),
            load("y"),
            Instruction::BinaryOperation { op: BinaryOperator::Add, inplace: false },
            Instruction::ReturnValue,
        ],
        vec![],
    );
    assert_eq!(r, Ok(()));
    assert_eq!(c.sig.ret, Some(JitType::Int));
    assert_eq!(c.sig.args, vec![JitType::Int, JitType::Int]);
    assert_eq!(c.builder.blocks.len(), 1);
    let b = &c.builder.blocks[0];
    let n = b.len();
    // the two argument bindings, the two loads, the checked add, the trap, the return
    assert_eq!(n, 7);
    match (b[n - 3], b[n - 2], b[n - 1]) {
        (
            Inst::IaddIfcout { out, flags, a, b: rhs },
            Inst::TrapOverflow { flags: f },
            Inst::Return { val },
        ) => {
            assert_eq!(flags, f);
            assert_eq!(val, out);
            assert!(matches!(b[2], Inst::UseVar { out: o, .. } if o == a));
            assert!(matches!(b[3], Inst::UseVar { out: o, .. } if o == rhs));
        }
        other => panic!("unexpected tail {:?}", other),
    }
}

#[test]
fn conflicting_returns_are_not_supported() {
    let (_, r) = run(
        &[("x", JitType::Int)],
        vec![
            load("x"),
            Instruction::JumpIfFalse { target: Label(0) },
            Instruction::LoadConst { value: int_const(1) },
            Instruction::ReturnValue,
            Instruction::LoadConst { value: Constant::Float { bits: 1.5f64.to_bits() } },
            Instruction::ReturnValue,
        ],
        vec![(Label(0), 4)],
    );
    assert_eq!(r, Err(JitCompileError::NotSupported));
}

#[test]
fn load_of_unbound_name_is_bad_bytecode() {
    let (_, r) = run(&[], vec![load("z"), Instruction::ReturnValue], vec![]);
    assert_eq!(r, Err(JitCompileError::BadBytecode));
}

#[test]
fn if_else_gives_two_returning_blocks() {
    let (c, r) = run(
        &[("x", JitType::Int)],
        vec![
            load("x"),
            Instruction::JumpIfFalse { target: Label(7) },
            Instruction::LoadConst { value: int_const(1) },
            Instruction::ReturnValue,
            Instruction::LoadConst { value: int_const(2) },
            Instruction::ReturnValue,
        ],
        vec![(Label(7), 4)],
    );
    assert_eq!(r, Ok(()));
    let blocks = &c.builder.blocks;
    let returning: Vec<usize> = (0..blocks.len())
        .filter(|&i| matches!(blocks[i].last(), Some(Inst::Return { .. })))
        .collect();
    assert_eq!(returning.len(), 2);
    let branches: Vec<Block> = blocks
        .iter()
        .flatten()
        .filter_map(|i| match *i {
            Inst::Brz { dest, .. } => Some(dest),
            _ => None,
        })
        .collect();
    assert_eq!(branches.len(), 1);
    let else_block = branches[0];
    assert!(returning.contains(&else_block.0));
    assert!(matches!(blocks[else_block.0][0], Inst::Iconst { imm: 2, .. }));
}

#[test]
fn float_compared_to_int_is_not_supported() {
    let (_, r) = run(
        &[("x", JitType::Float), ("y", JitType::Int)],
        vec![
            load("x"),
            load("y"),
            Instruction::CompareOperation { op: ComparisonOperator::Less },
            Instruction::ReturnValue,
        ],
        vec![],
    );
    assert_eq!(r, Err(JitCompileError::NotSupported));
}

#[test]
fn oversized_literal_is_not_supported() {
    let big = Constant::Integer { value: IntLiteral { negative: false, magnitude: vec![0, 1] } };
    let (_, r) = run(&[], vec![Instruction::LoadConst { value: big }, Instruction::ReturnValue], vec![]);
    assert_eq!(r, Err(JitCompileError::NotSupported));
}

#[test]
fn conflicting_stores_are_not_supported() {
    let (_, r) = run(
        &[],
        vec![
            Instruction::LoadConst { value: int_const(1) },
            store("a"),
            Instruction::LoadConst { value: Constant::Float { bits: 2.0f64.to_bits() } },
            store("a"),
        ],
        vec![],
    );
    assert_eq!(r, Err(JitCompileError::NotSupported));
}

#[test]
fn stored_type_is_seen_by_later_loads() {
    let (c, r) = run(
        &[],
        vec![
            Instruction::LoadConst { value: int_const(3) },
            store("a"),
            Instruction::LoadConst { value: int_const(4) },
            store("a"),
            load("a"),
            Instruction::ReturnValue,
        ],
        vec![],
    );
    assert_eq!(r, Ok(()));
    assert_eq!(c.sig.ret, Some(JitType::Int));
    assert_eq!(c.builder.var_types, vec![JitType::Int]);
}

#[test]
fn subtraction_pops_right_operand_first() {
    let (c, r) = run(
        &[("a", JitType::Int), ("b", JitType::Int)],
        vec![
            load("a"),
            load("b"),
            Instruction::BinaryOperation { op: BinaryOperator::Subtract, inplace: false },
            Instruction::ReturnValue,
        ],
        vec![],
    );
    assert_eq!(r, Ok(()));
    let b = &c.builder.blocks[0];
    let (va, vb) = match (b[2], b[3]) {
        (Inst::UseVar { out: x, .. }, Inst::UseVar { out: y, .. }) => (x, y),
        other => panic!("unexpected {:?}", other),
    };
    assert!(matches!(b[4], Inst::IsubIfbout { a, b: rhs, .. } if a == va && rhs == vb));
    assert!(matches!(b[5], Inst::TrapOverflow { .. }));
}

#[test]
fn float_arithmetic_never_traps() {
    let (c, r) = run(
        &[("a", JitType::Float), ("b", JitType::Float)],
        vec![
            load("a"),
            load("b"),
            Instruction::BinaryOperation { op: BinaryOperator::Divide, inplace: false },
            Instruction::ReturnValue,
        ],
        vec![],
    );
    assert_eq!(r, Ok(()));
    assert_eq!(c.sig.ret, Some(JitType::Float));
    let b = &c.builder.blocks[0];
    assert!(b.iter().all(|i| !matches!(i, Inst::TrapOverflow { .. })));
    assert!(b.iter().any(|i| matches!(i, Inst::FloatBinary { op: FloatOp::Div, .. })));
}

#[test]
fn unsupported_instruction_fails() {
    let (_, r) = run(&[], vec![Instruction::Other], vec![]);
    assert_eq!(r, Err(JitCompileError::NotSupported));
    let (_, r) = run(&[], vec![Instruction::LoadConst { value: Constant::Other }], vec![]);
    assert_eq!(r, Err(JitCompileError::NotSupported));
    let (_, r) = run(
        &[("a", JitType::Int), ("b", JitType::Int)],
        vec![load("a"), load("b"), Instruction::BinaryOperation { op: BinaryOperator::Multiply, inplace: false }],
        vec![],
    );
    assert_eq!(r, Err(JitCompileError::NotSupported));
}

#[test]
fn empty_stack_is_bad_bytecode() {
    let (_, r) = run(&[], vec![Instruction::ReturnValue], vec![]);
    assert_eq!(r, Err(JitCompileError::BadBytecode));
    let (_, r) = run(&[], vec![Instruction::LoadConst { value: int_const(1) }, Instruction::CompareOperation { op: ComparisonOperator::Equal }], vec![]);
    assert_eq!(r, Err(JitCompileError::BadBytecode));
}

#[test]
fn float_condition_is_not_supported() {
    let (_, r) = run(
        &[("x", JitType::Float)],
        vec![load("x"), Instruction::JumpIfFalse { target: Label(0) }, Instruction::ReturnValue],
        vec![(Label(0), 2)],
    );
    assert_eq!(r, Err(JitCompileError::NotSupported));
}

#[test]
fn comparison_conditions() {
    let cases = [
        (ComparisonOperator::Equal, IntCC::Equal),
        (ComparisonOperator::NotEqual, IntCC::NotEqual),
        (ComparisonOperator::Less, IntCC::SignedLessThan),
        (ComparisonOperator::LessOrEqual, IntCC::SignedLessThanOrEqual),
        (ComparisonOperator::Greater, IntCC::SignedGreaterThan),
        (ComparisonOperator::GreaterOrEqual, IntCC::SignedLessThanOrEqual),
    ];
    for (op, cc) in cases.iter() {
        let (c, r) = run(
            &[("a", JitType::Int), ("b", JitType::Int)],
            vec![load("a"), load("b"), Instruction::CompareOperation { op: *op }, Instruction::ReturnValue],
            vec![],
        );
        assert_eq!(r, Ok(()));
        assert!(matches!(c.builder.blocks[0][4], Inst::Icmp { cond, .. } if cond == *cc));
    }
    let (_, r) = run(
        &[("a", JitType::Int), ("b", JitType::Int)],
        vec![load("a"), load("b"), Instruction::CompareOperation { op: ComparisonOperator::Is }],
        vec![],
    );
    assert_eq!(r, Err(JitCompileError::NotSupported));
}

#[test]
fn forward_jump_and_label_share_a_block() {
    // 0: jump L; 1: dead; 2 (L): return 5
    let (c, r) = run(
        &[],
        vec![
            Instruction::Jump { target: Label(3) },
            Instruction::ReturnValue,
            Instruction::LoadConst { value: int_const(5) },
            Instruction::ReturnValue,
        ],
        vec![(Label(3), 2)],
    );
    assert_eq!(r, Ok(()));
    let dest = match c.builder.blocks[0].last().copied() {
        Some(Inst::Jump { dest }) => dest,
        other => panic!("unexpected {:?}", other),
    };
    assert_eq!(c.builder.current, dest);
    assert!(matches!(c.builder.blocks[dest.0][0], Inst::Iconst { imm: 5, .. }));
}

#[test]
fn open_block_falls_into_label() {
    // 0: x = 1; 1 (L): return x
    let (c, r) = run(
        &[],
        vec![Instruction::LoadConst { value: int_const(1) }, store("x"), load("x"), Instruction::ReturnValue],
        vec![(Label(1), 2)],
    );
    assert_eq!(r, Ok(()));
    assert_eq!(c.builder.blocks.len(), 2);
    assert!(matches!(c.builder.blocks[0].last(), Some(Inst::Jump { dest: Block(1) })));
}

#[test]
fn every_block_ends_at_its_terminator() {
    let (c, r) = run(
        &[("x", JitType::Int)],
        vec![
            load("x"),
            Instruction::JumpIfFalse { target: Label(0) },
            Instruction::LoadConst { value: int_const(1) },
            Instruction::ReturnValue,
            Instruction::LoadConst { value: int_const(9) },
            Instruction::LoadConst { value: int_const(2) },
            Instruction::ReturnValue,
        ],
        vec![(Label(0), 5)],
    );
    assert_eq!(r, Ok(()));
    for b in c.builder.blocks.iter() {
        let terms = b.iter().filter(|i| is_terminator(i)).count();
        assert!(b.is_empty() || terms == 1);
        if let Some(pos) = b.iter().position(is_terminator) {
            assert_eq!(pos, b.len() - 1);
        }
    }
}

#[test]
fn literal_conversion() {
    let lit = |negative: bool, magnitude: Vec<u64>| IntLiteral { negative, magnitude };
    assert_eq!(lit(false, vec![]).to_i64(), Some(0));
    assert_eq!(lit(true, vec![]).to_i64(), Some(0));
    assert_eq!(lit(false, vec![42, 0, 0]).to_i64(), Some(42));
    assert_eq!(lit(true, vec![42]).to_i64(), Some(-42));
    assert_eq!(lit(false, vec![i64::MAX as u64]).to_i64(), Some(i64::MAX));
    assert_eq!(lit(false, vec![1u64 << 63]).to_i64(), None);
    assert_eq!(lit(true, vec![1u64 << 63]).to_i64(), Some(i64::MIN));
    assert_eq!(lit(true, vec![(1u64 << 63) + 1]).to_i64(), None);
    assert_eq!(lit(false, vec![0, 0, 7]).to_i64(), None);
}

#[test]
fn label_lookup_by_offset() {
    let code = CodeObject {
        instructions: vec![],
        label_map: vec![(Label(1), 3), (Label(2), 5), (Label(4), 3)],
    };
    assert_eq!(code.label_at_offset(3), Some(Label(4)));
    assert_eq!(code.label_at_offset(5), Some(Label(2)));
    assert_eq!(code.label_at_offset(0), None);
}

#[test]
fn arguments_bind_entry_parameters() {
    let c = compiler(&[("p", JitType::Float), ("q", JitType::Int)]);
    assert_eq!(c.builder.var_types, vec![JitType::Float, JitType::Int]);
    assert_eq!(c.builder.block_params[0], vec![Value(0), Value(1)]);
    assert_eq!(c.builder.blocks[0].len(), 2);
    assert!(matches!(c.builder.blocks[0][1], Inst::DefVar { val: Value(1), .. }));
}

#[test]
fn backward_jump_reaches_the_labelled_block() {
    // 0: i = 0; 2 (L): if not i goto E; 4: goto L; 5 (E): return i
    let (c, r) = run(
        &[],
        vec![
            Instruction::LoadConst { value: int_const(0) },
            store("i"),
            load("i"),
            Instruction::JumpIfFalse { target: Label(2) },
            Instruction::Jump { target: Label(1) },
            load("i"),
            Instruction::ReturnValue,
        ],
        vec![(Label(1), 2), (Label(2), 5)],
    );
    assert_eq!(r, Ok(()));
    let blocks = &c.builder.blocks;
    assert_eq!(blocks.len(), 4);
    assert!(matches!(blocks[0].last(), Some(Inst::Jump { dest: Block(1) })));
    assert!(matches!(blocks[3].last(), Some(Inst::Jump { dest: Block(1) })));
    assert!(matches!(blocks[1][1], Inst::Brz { dest: Block(2), .. }));
    assert!(matches!(blocks[2].last(), Some(Inst::Return { .. })));
}

#[test]
fn jump_to_undefined_label_is_bad_bytecode() {
    let (_, r) = run(&[], vec![Instruction::Jump { target: Label(9) }], vec![]);
    assert_eq!(r, Err(JitCompileError::BadBytecode));
    let (_, r) = run(
        &[("x", JitType::Int)],
        vec![load("x"), Instruction::JumpIfFalse { target: Label(3) }],
        vec![(Label(4), 1)],
    );
    assert_eq!(r, Err(JitCompileError::BadBytecode));
}

#[test]
fn dead_code_after_return_is_skipped() {
    let (c, r) = run(
        &[],
        vec![
            Instruction::LoadConst { value: int_const(1) },
            Instruction::ReturnValue,
            Instruction::Other,
            Instruction::ReturnValue,
        ],
        vec![],
    );
    assert_eq!(r, Ok(()));
    assert_eq!(c.builder.blocks[0].len(), 2);
}

#[test]
fn rebinding_keeps_the_slot() {
    let mut c = compiler(&[("a", JitType::Int)]);
    let before = c.variables.clone();
    assert_eq!(c.store_variable("a".to_string(), rustpython_jit::JitValue::new(Value(0), JitType::Int)), Ok(()));
    assert_eq!(c.variables.len(), before.len());
    assert_eq!(c.store_variable("b".to_string(), rustpython_jit::JitValue::new(Value(0), JitType::Float)), Ok(()));
    assert_eq!(c.builder.var_types, vec![JitType::Int, JitType::Float]);
    assert_eq!(
        c.store_variable("a".to_string(), rustpython_jit::JitValue::new(Value(0), JitType::Float)),
        Err(JitCompileError::NotSupported)
    );
}

#[test]
fn stream_ending_in_open_block_is_bad_bytecode() {
    let (_, r) = run(&[], vec![Instruction::LoadConst { value: int_const(1) }], vec![]);
    assert_eq!(r, Err(JitCompileError::BadBytecode));
}

#[test]
fn jump_to_label_never_entered_is_bad_bytecode() {
    // the label points past the last instruction
    let (_, r) = run(
        &[],
        vec![Instruction::Jump { target: Label(1) }],
        vec![(Label(1), 1)],
    );
    assert_eq!(r, Err(JitCompileError::BadBytecode));
    // the label shares its offset with a later entry, which names that offset
    let (_, r) = run(
        &[],
        vec![
            Instruction::Jump { target: Label(1) },
            Instruction::LoadConst { value: int_const(1) },
            Instruction::ReturnValue,
        ],
        vec![(Label(1), 1), (Label(2), 1)],
    );
    assert_eq!(r, Err(JitCompileError::BadBytecode));
}

#[test]
fn successful_compile_ends_every_block() {
    let (c, r) = run(
        &[("x", JitType::Int)],
        vec![
            load("x"),
            Instruction::JumpIfFalse { target: Label(0) },
            Instruction::LoadConst { value: int_const(1) },
            Instruction::ReturnValue,
            Instruction::LoadConst { value: int_const(2) },
            Instruction::ReturnValue,
        ],
        vec![(Label(0), 4)],
    );
    assert_eq!(r, Ok(()));
    assert!(c.builder.blocks.iter().all(|b| b.last().map_or(false, is_terminator)));
}
