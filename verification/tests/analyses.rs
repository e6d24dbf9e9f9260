use mcd::addressed_container::{AddressedContainer, SparseMap};
use mcd::constants::CodeAddress;
use mcd::disassembler::{find_index_in_btreeset, DisassemblyError, DisassemblyFunction, DisassemblyTerminator};
use mcd::opcodes::Opcode;
use mcd::ssa::{FunctionVariableContext, perform_ssa_function, try_perform_ssa_function, ImmediateValue, SSAError, SSATerminator, Variable, OP};
use mcd::traits::{GenericTerminator, TBlock, TFunction};

fn function(ops: Vec<Opcode>) -> AddressedContainer<Opcode> {
    let n = ops.len();
    AddressedContainer::new(ops, SparseMap::new((0..n).collect()))
}

fn branching() -> AddressedContainer<Opcode> {
    function(vec![
        Opcode::IPUSHZ,
        Opcode::BT(CodeAddress(4)),
        Opcode::IPUSHZ,
        Opcode::GOTO(CodeAddress(5)),
        Opcode::IPUSHZ,
        Opcode::RETURN,
    ])
}

#[test]
fn blocks_start_at_leaders() {
    let dis = DisassemblyFunction::disassemble(&branching()).unwrap();
    assert_eq!(dis.blocks.len(), 4);
    let names: Vec<&str> = dis.blocks.iter().map(|b| b.name.as_str()).collect();
    assert_eq!(names, vec!["b0", "b1", "b2", "b3"]);
    assert_eq!(dis.blocks[0].terminator, DisassemblyTerminator::BranchTrue { target_true: 2, target_false: 1 });
    assert_eq!(dis.blocks[1].terminator, DisassemblyTerminator::Jump { target: 3 });
    assert_eq!(dis.blocks[2].terminator, DisassemblyTerminator::Jump { target: 3 });
    assert_eq!(dis.blocks[3].terminator, DisassemblyTerminator::Return);
    let lens: Vec<usize> = dis.blocks.iter().map(|b| b.container.len()).collect();
    assert_eq!(lens, vec![2, 2, 1, 1]);
    assert_eq!(dis.blocks[2].get_block_address_bounds(), Some((4, 4)));
    assert_eq!(dis.get_blocks_for_function().len(), 4);
    assert!(matches!(dis.blocks[0].get_block_terminator(), GenericTerminator::BranchTrue { target_true: 2, target_false: 1 }));
    let instrs = dis.blocks[0].get_instructions_for_block();
    assert_eq!(instrs[1], (Some(1), &Opcode::BT(CodeAddress(4))));
}

#[test]
fn jsr_is_not_disassembled() {
    let r = DisassemblyFunction::disassemble(&function(vec![Opcode::JSR(CodeAddress(0)), Opcode::RETURN]));
    assert!(matches!(r, Err(DisassemblyError::CannotDissasembleJSR)));
}

#[test]
fn falling_off_the_end_is_malformed() {
    let r = DisassemblyFunction::try_disassemble(&function(vec![Opcode::IPUSHZ]));
    assert!(matches!(r, Err(DisassemblyError::MalformedControlFlow)));
    let r = DisassemblyFunction::try_disassemble(&function(vec![Opcode::RETURN, Opcode::GOTO(CodeAddress(9))]));
    assert!(matches!(r, Err(DisassemblyError::MalformedControlFlow)));
}

#[test]
fn leader_index_lookup() {
    let leaders: std::collections::BTreeSet<usize> = [5, 0, 4, 2].into_iter().collect();
    assert_eq!(find_index_in_btreeset(&leaders, 4), Some(2));
    assert_eq!(find_index_in_btreeset(&leaders, 3), None);
}

#[test]
fn ssa_of_branching_function() {
    let dis = DisassemblyFunction::disassemble(&branching()).unwrap();
    let ssa = perform_ssa_function(&dis).unwrap();
    assert_eq!(ssa.blocks.len(), 4);
    let b0 = &ssa.blocks[0];
    assert_eq!(b0.name, "block_0");
    assert!(matches!(b0.ops[0], OP::MoveImm { src: ImmediateValue::Null, dest: Variable::Stack { addr: 1, unique: 0 } }));
    assert!(matches!(b0.ops[1], OP::MoveImm { src: ImmediateValue::Integer(0), dest: Variable::Stack { addr: 2, unique: 0 } }));
    assert_eq!(b0.terminator, SSATerminator::BranchTrue { test: Variable::Stack { addr: 2, unique: 0 }, target_true: 2, target_false: 1 });
    assert!(matches!(ssa.blocks[2].ops[0], OP::MoveImm { dest: Variable::Stack { addr: 2, unique: 1 }, .. }));
    assert!(matches!(ssa.blocks[1].ops[0], OP::MoveImm { dest: Variable::Stack { addr: 2, unique: 2 }, .. }));
    assert_eq!(ssa.blocks[3].start_depth, 2);
    assert_eq!(ssa.blocks[3].terminator, SSATerminator::Return { var: Variable::Stack { addr: 2, unique: 2 } });
}

#[test]
fn ssa_assigns_each_variable_once() {
    let dis = DisassemblyFunction::disassemble(&branching()).unwrap();
    let ssa = perform_ssa_function(&dis).unwrap();
    let mut dests: Vec<Variable> = Vec::new();
    for b in &ssa.blocks {
        for op in &b.ops {
            if let OP::MoveImm { dest, .. } | OP::Move { dest, .. } = op {
                dests.push(*dest);
            }
        }
    }
    let n = dests.len();
    dests.sort_by_key(|v| format!("{v:?}"));
    dests.dedup();
    assert_eq!(dests.len(), n);
}

#[test]
fn unbalanced_stack_is_reported() {
    let dis = DisassemblyFunction::disassemble(&function(vec![
        Opcode::IPUSHZ,
        Opcode::BT(CodeAddress(3)),
        Opcode::IPUSHZ,
        Opcode::RETURN,
    ]))
    .unwrap();
    assert!(matches!(perform_ssa_function(&dis), Err(SSAError::UnbalancedStack)));
}

#[test]
fn unsupported_instruction_is_reported() {
    let dis = DisassemblyFunction::disassemble(&function(vec![Opcode::NOP, Opcode::RETURN])).unwrap();
    assert!(matches!(try_perform_ssa_function(&dis), Err(SSAError::UnsupportedOpcode(Opcode::NOP))));
}

#[test]
fn popping_an_empty_stack_is_reported() {
    let dis = DisassemblyFunction::disassemble(&function(vec![Opcode::POPV, Opcode::POPV, Opcode::RETURN])).unwrap();
    assert!(matches!(try_perform_ssa_function(&dis), Err(SSAError::StackUnderflow)));
}

#[test]
fn reading_internal_before_it_is_set_is_reported() {
    let dis = DisassemblyFunction::disassemble(&function(vec![Opcode::FRPUSH, Opcode::RETURN])).unwrap();
    assert!(matches!(try_perform_ssa_function(&dis), Err(SSAError::InternalNotSet)));
}

#[test]
fn field_read_and_call() {
    let dis = DisassemblyFunction::disassemble(&function(vec![
        Opcode::GETSELF,
        Opcode::SPUSH(mcd::constants::SymbolAddress(7)),
        Opcode::GETV,
        Opcode::FRPUSH,
        Opcode::INVOKEM(1),
        Opcode::RETURN,
    ]))
    .unwrap();
    let ssa = perform_ssa_function(&dis).unwrap();
    let ops = &ssa.blocks[0].ops;
    // null, self, symbol, internal save, getv, frpush, call
    assert_eq!(ops.len(), 7);
    assert!(matches!(ops[3], OP::Move { src: Variable::Stack { addr: 2, unique: 0 }, dest: Variable::Internal { unique: 0 } }));
    assert!(matches!(ops[5], OP::Move { src: Variable::Internal { unique: 0 }, .. }));
    match &ops[6] {
        OP::Call { arguments, .. } => assert_eq!(arguments.len(), 1),
        _ => panic!("expected a call"),
    }
    assert!(matches!(ssa.blocks[0].get_block_terminator(), GenericTerminator::Return));
    assert_eq!(ssa.blocks[0].len(), 7);
    assert_eq!(ssa.blocks[0].get_block_address_bounds(), None);
}

#[test]
fn push_pop_and_internal_register() {
    let ctx = FunctionVariableContext::new_ctx();
    let mut b = ctx.new_block_context(0);
    let v = b.push_stack_variable();
    assert_eq!(v, Variable::Stack { addr: 1, unique: 0 });
    assert_eq!(b.get_sp(), 1);
    assert_eq!(b.pop_stack_variable_top(), v);
    assert_eq!(b.get_sp(), 0);
    assert!(matches!(b.try_pop_stack_variable_top(), Err(SSAError::StackUnderflow)));
    assert!(matches!(b.try_get_internal(), Err(SSAError::InternalNotSet)));
    let i0 = b.set_internal();
    assert_eq!(i0, Variable::Internal { unique: 0 });
    assert_eq!(b.get_internal(), i0);
    // counters pass to the next block of the function: a new push is fresh
    let ctx = b.into_function_context();
    let mut c = ctx.new_block_context(0);
    assert_eq!(c.push_stack_variable(), Variable::Stack { addr: 1, unique: 1 });
    assert_eq!(c.set_internal(), Variable::Internal { unique: 1 });
}
