use std::collections::HashMap;

use mcd::addressed_container::{AddressedContainer, SparseMap};
use mcd::analysis::{ILType, SymbolDB};
use mcd::sections::data::Flags;
use mcd::sections::header::CIQVersion;
use mcd::sourcedata::SourceData;
use mcd::constants::{CodeAddress, DataAddress, SymbolAddress};
use mcd::disassembler::{BasicBlock, DisassemblyFunction};
use mcd::listing::render_function;
use mcd::opcodes::Opcode;
use mcd::disassembler::DisassemblyError;
use mcd::ssa::{SSAError, perform_ssa_function, BinaryOperator, ImmediateValue, SSABlock, SSATerminator, UnaryOperator, Variable, OP};
use mcd::text::quoted_text;
use mcd::traits::display_with_resolver;

fn resolver() -> SymbolDB {
    let mut api = HashMap::new();
    api.insert(5u32, "toString".to_string());
    SymbolDB::new(None, Some(api))
}

fn text(op: Opcode) -> String {
    let db = resolver();
    display_with_resolver(&op, &db).to_string()
}

#[test]
fn instructions_name_their_symbols() {
    assert_eq!(text(Opcode::SPUSH(SymbolAddress(5))), "SPUSH toString");
    assert_eq!(text(Opcode::SPUSH(SymbolAddress(6))), "SPUSH sym_6");
    assert_eq!(text(Opcode::GETMV(SymbolAddress(5), SymbolAddress(6))), "GETMV toString, sym_6");
    assert_eq!(text(Opcode::GETLOCALV(3, SymbolAddress(6))), "GETLOCALV 3, sym_6");
    assert_eq!(text(Opcode::GETSELFV(SymbolAddress(5))), "GETSELFV toString");
    assert_eq!(text(Opcode::GETSV(SymbolAddress(7))), "GETSV sym_7");
}

#[test]
fn data_without_a_name_is_written_in_hexadecimal() {
    assert_eq!(text(Opcode::NEWS(DataAddress(0x1f))), "NEWS data_1F");
    assert_eq!(text(Opcode::APUSH(DataAddress(0))), "APUSH data_0");
    assert_eq!(text(Opcode::BAPUSH(DataAddress(0xabc))), "BAPUSH data_ABC");
    assert_eq!(text(Opcode::HPUSH(DataAddress(16))), "HPUSH data_10");
}

#[test]
fn other_instructions_are_written_as_debug_writes_them() {
    assert_eq!(text(Opcode::IPUSHZ), "IPUSHZ");
    assert_eq!(text(Opcode::BT(CodeAddress(4))), "BT(CodeAddress(4))");
    assert_eq!(text(Opcode::INCSP(-2)), "INCSP(-2)");
}

fn branching() -> AddressedContainer<Opcode> {
    let ops = vec![
        Opcode::IPUSHZ,
        Opcode::BT(CodeAddress(4)),
        Opcode::IPUSHZ,
        Opcode::GOTO(CodeAddress(5)),
        Opcode::IPUSHZ,
        Opcode::RETURN,
    ];
    AddressedContainer::new(ops, SparseMap::new((0..6).collect()))
}

#[test]
fn listing_of_a_disassembled_function() {
    let dis = DisassemblyFunction::disassemble(&branching()).unwrap();
    let db = resolver();
    let listing = render_function::<_, BasicBlock, Opcode, _>(&dis, &db).to_string().unwrap();
    let expected = [
        "    b0",
        "     0  0   IPUSHZ",
        " ╭─  1  1   BT(CodeAddress(4))",
        " │  b1",
        " │   2  2   IPUSHZ",
        "╭│─  3  3   GOTO(CodeAddress(5))",
        "││  b2",
        "│╰▶  4  4   IPUSHZ",
        "│   b3",
        "╰─▶  5  5   RETURN",
        "",
    ]
    .join("\n");
    assert_eq!(listing, expected);
}

#[test]
fn listing_of_an_ssa_function_has_no_address_column() {
    let dis = DisassemblyFunction::disassemble(&branching()).unwrap();
    let ssa = perform_ssa_function(&dis).unwrap();
    let db = resolver();
    let listing = render_function::<_, SSABlock, OP, _>(&ssa, &db).to_string().unwrap();
    let lines: Vec<&str> = listing.lines().collect();
    let total: usize = ssa.blocks.iter().map(|b| b.ops.len()).sum();
    assert_eq!(lines.len(), ssa.blocks.len() + total);
    assert!(lines[0].ends_with("  block_0"));
    // the arrows, then the line number and the operation
    assert!(lines[1].ends_with(" 0   S1_0 = Null"));
    assert!(lines[2].ends_with(" 1   S2_0 = Integer(0)"));
}

#[test]
fn ssa_text() {
    let l = Variable::Local { addr: 2, unique: 7 };
    let s = Variable::Stack { addr: 10, unique: 0 };
    let i = Variable::Internal { unique: 3 };
    assert_eq!(l.text(), "L2_7");
    assert_eq!(s.text(), "S10_0");
    assert_eq!(i.text(), "I_3");
    assert_eq!(OP::Move { src: l, dest: s }.text(), "S10_0 = L2_7");
    assert_eq!(OP::MoveImm { src: ImmediateValue::Integer(-4), dest: s }.text(), "S10_0 = Integer(-4)");
    assert_eq!(
        OP::BinaryOperation { op: BinaryOperator::Lte, src1: l, src2: i, dest: s }.text(),
        "S10_0 = L2_7 <= I_3"
    );
    assert_eq!(OP::UnaryOperation { op: UnaryOperator::NewByteArray, src: l, dest: s }.text(), "S10_0 = newarray L2_7");
    assert_eq!(OP::Getv { base: l, symbol: i, dest: s }.text(), "S10_0 = L2_7.I_3");
    assert_eq!(OP::Putv { src: s, base: l, symbol: i }.text(), "L2_7.I_3 = S10_0");
    assert_eq!(OP::Getm { symbol: i, dest: s }.text(), "S10_0 = getm(I_3)");
    assert_eq!(OP::Aputv { src: l, idx: i, value: s }.text(), "L2_7[I_3] =  S10_0");
    assert_eq!(OP::Agetv { src: l, idx: i, dest: s }.text(), "S10_0 = L2_7[I_3]");
    assert_eq!(OP::Call { function: i, arguments: vec![l, s], dest: s }.text(), "S10_0 = I_3(L2_7, S10_0, )");
    assert_eq!(OP::Call { function: i, arguments: vec![], dest: s }.text(), "S10_0 = I_3()");
    assert_eq!(SSATerminator::Jump { target: 4 }.text(), "JUMP 4");
    assert_eq!(SSATerminator::BranchTrue { test: l, target_true: 2, target_false: 1 }.text(), "JUMP L2_7 ? 2 : 1");
    assert_eq!(SSATerminator::Return { var: s }.text(), "RETURN S10_0");
}

#[test]
fn value_texts() {
    assert_eq!(Flags(0).to_string(), "");
    assert_eq!(Flags(5).to_string(), "(CS)");
    assert_eq!(Flags(7).to_string(), "(CHS)");
    assert_eq!(Flags(2).to_string(), "(H)");
    assert_eq!(CIQVersion(3, 1, 4).to_string(), "3.1.4");
    assert_eq!(ILType::Disassembly.to_string(), "Disassembly");
    assert_eq!(ILType::SSA.to_string(), "SSA");

    let mut sd = SourceData::new();
    assert_eq!(sd.to_string(), "[None]");
    sd.add_line(40);
    sd.add_line(12);
    assert_eq!(sd.to_string(), "[None]");
    sd.set_file(DataAddress(3));
    assert_eq!(sd.to_string(), "12-40");

    assert_eq!(SparseMap::new(vec![4, 2, 9, 4]).debug_text(), "SparseMap { len: 3, range: 2..=9 }");
    assert_eq!(SparseMap::new(vec![]).debug_text(), "SparseMap { len: 0, range: 0..=0 }");
    let c = AddressedContainer::new(vec!['a', 'b'], SparseMap::new(vec![7, 3]));
    assert_eq!(c.debug_text(), "AddressedContainer { len: 2, address_range: (Some(3), Some(7)) }");
    let e: AddressedContainer<u8> = AddressedContainer::new(vec![], SparseMap::new(vec![]));
    assert_eq!(e.debug_text(), "AddressedContainer { len: 0, address_range: (None, None) }");
}

#[test]
fn named_data_is_quoted_and_escaped() {
    assert_eq!(quoted_text("say \"hi\"\n\tnow \u{fc}"), "\"say \\\"hi\\\"\\n\\tnow \\u{fc}\"");
    assert_eq!(quoted_text("plain 'x' \\"), "\"plain \\'x\\' \\\\\"");
}

#[test]
fn debug_texts_of_constants_and_errors() {
    assert_eq!(ImmediateValue::Null.debug_text(), "Null");
    assert_eq!(ImmediateValue::Integer(-7).debug_text(), "Integer(-7)");
    assert_eq!(ImmediateValue::Integer(i32::MIN).debug_text(), "Integer(-2147483648)");
    assert_eq!(ImmediateValue::Long(u64::MAX).debug_text(), "Long(18446744073709551615)");
    assert_eq!(ImmediateValue::Float(1065353216).debug_text(), "Float(1065353216)");
    assert_eq!(ImmediateValue::Char('a').debug_text(), "Char('a')");
    assert_eq!(ImmediateValue::Char('\'').debug_text(), "Char('\\'')");
    assert_eq!(ImmediateValue::Char('"').debug_text(), format!("Char({:?})", '"'));
    assert_eq!(ImmediateValue::Char('\n').debug_text(), format!("Char({:?})", '\n'));
    assert_eq!(ImmediateValue::Char('\u{1}').debug_text(), format!("Char({:?})", '\u{1}'));
    assert_eq!(ImmediateValue::Char('é').debug_text(), format!("Char({:?})", 'é'));
    assert_eq!(ImmediateValue::String(DataAddress(3)).debug_text(), "String(DataAddress(3))");
    assert_eq!(ImmediateValue::Symbol(SymbolAddress(4)).debug_text(), "Symbol(SymbolAddress(4))");
    assert_eq!(ImmediateValue::Boolean(true).debug_text(), "Boolean(true)");
    assert_eq!(DisassemblyError::CannotDissasembleJSR.debug_text(), "CannotDissasembleJSR");
    assert_eq!(SSAError::UnsupportedOpcode(Opcode::GETMV(SymbolAddress(1), SymbolAddress(2))).debug_text(),
        "UnsupportedOpcode(GETMV(SymbolAddress(1), SymbolAddress(2)))");
    assert_eq!(SSAError::StackUnderflow.debug_text(), "StackUnderflow");
    assert_eq!(Opcode::ARGCINCSP(2, 3).debug_text(), "ARGCINCSP(2, 3)");
    assert_eq!(Opcode::IPUSH1(-1).debug_text(), "IPUSH1(-1)");
    assert_eq!(Opcode::CPUSH('x').debug_text(), "CPUSH('x')");
    assert_eq!(Opcode::LPUSH(12).debug_text(), "LPUSH(12)");
    // the derived Debug agrees with the stated text
    for op in [Opcode::NOP, Opcode::INCSP(-3), Opcode::JSR(CodeAddress(9)), Opcode::GETLOCALV(2, SymbolAddress(8)), Opcode::DUP(1)] {
        assert_eq!(op.debug_text(), format!("{op:?}"));
    }
}
