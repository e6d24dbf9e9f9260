use mcd::analysis::{AnalysisError, ErrorUnion, ILType, McdError, SymbolSource, MCD};
use mcd::binary_reader::BinaryReader;
use mcd::constants::SymbolAddress;
use mcd::disassembler::{DisassemblyError, DisassemblyTerminator};
use mcd::error::{Malformed, ParseError};
use mcd::parser::{Parser, SectionTag};
use mcd::ssa::{ImmediateValue, SSATerminator, Variable, OP};
use std::collections::HashMap;

fn section(magic: u32, body: &[u8]) -> Vec<u8> {
    let mut v = magic.to_be_bytes().to_vec();
    v.extend_from_slice(&(body.len() as i32).to_be_bytes());
    v.extend_from_slice(body);
    v
}

/// A class at data offset 0 with one method field (symbol 5) at code address 0.
fn data_body() -> Vec<u8> {
    let mut d = vec![0xc1, 0xa5, 0x5d, 0xef];
    d.extend_from_slice(&0u32.to_be_bytes()); // extends
    d.extend_from_slice(&0u32.to_be_bytes()); // statics
    d.extend_from_slice(&0u32.to_be_bytes()); // parent module
    d.extend_from_slice(&0u32.to_be_bytes()); // module
    d.extend_from_slice(&0u16.to_be_bytes()); // app type
    d.push(1); // one field
    d.extend_from_slice(&0x506u32.to_be_bytes()); // symbol 5, method
    d.extend_from_slice(&0x1000_0000u32.to_be_bytes()); // code address 0
    d
}

/// ARGC 0; IPUSHZ; RETURN
fn code_body() -> Vec<u8> {
    vec![53, 0, 55, 22]
}

fn image() -> Vec<u8> {
    let mut v = section(0xDA7ABABE, &data_body());
    v.extend(section(0xC0DEBABE, &code_body()));
    v
}

#[test]
fn parses_sections_in_order() {
    let bytes = image();
    let sections = Parser::new(BinaryReader::new(&bytes, bytes.len() as u64)).parse().unwrap();
    assert_eq!(sections.position(SectionTag::Data), Some(0));
    assert_eq!(sections.position(SectionTag::Code), Some(1));
    let code = sections.get_code_section().unwrap();
    assert_eq!(code.len(), 3);
    assert_eq!(code.start_addr(), Some(0));
    assert_eq!(code.end_addr(), Some(3));
    assert!(sections.get_data_section().unwrap().contains_key(&0));
    assert!(sections.get_symbols_section().is_none());
}

#[test]
fn unknown_sections_are_skipped() {
    let bytes = section(0x1234_5678, &[9, 9, 9]);
    let sections = Parser::new(BinaryReader::new(&bytes, bytes.len() as u64)).try_parse().unwrap();
    assert_eq!(sections.position(SectionTag::UnknownSection), Some(0));
}

#[test]
fn overlong_section_is_malformed() {
    let mut bytes = section(0x1234_5678, &[9, 9, 9]);
    bytes.truncate(9);
    let r = Parser::new(BinaryReader::new(&bytes, bytes.len() as u64)).try_parse();
    assert!(matches!(r, Err(ParseError::Malformed(Malformed::SectionLength))));
}

#[test]
fn undecodable_code_is_malformed() {
    let bytes = section(0xC0DEBABE, &[0xff]);
    let r = Parser::new(BinaryReader::new(&bytes, bytes.len() as u64)).try_parse();
    assert!(matches!(r, Err(ParseError::Malformed(Malformed::CodeStream))));
}

#[test]
fn finds_functions_and_analyses_them() {
    let bytes = image();
    let sections = Parser::new(BinaryReader::new(&bytes, bytes.len() as u64)).parse().unwrap();
    let mut mcd = MCD::try_new(sections, None).unwrap();
    assert_eq!(mcd.functions.len(), 1);
    let f = &mut mcd.functions[0];
    assert_eq!(f.get_name(), &vec![SymbolAddress(5)]);
    assert_eq!(f.get_arg_count(), 0);
    assert_eq!(f.get_start_address(), Some(0));
    assert!(!f.get_source_data().has_file());
    assert_eq!(f.get_il_status(ILType::Disassembly), "Not Analyzed");

    {
        let dis = f.with_disassembly().unwrap();
        assert_eq!(dis.blocks.len(), 1);
        assert_eq!(dis.blocks[0].name, "b0");
        assert_eq!(dis.blocks[0].terminator, DisassemblyTerminator::Return);
        assert_eq!(dis.blocks[0].container.len(), 3);
    }
    assert_eq!(f.get_il_status(ILType::Disassembly), "OK");
    assert_eq!(f.get_il_status(ILType::SSA), "Not Analyzed");

    let ssa = f.with_ssa().unwrap();
    assert_eq!(ssa.blocks.len(), 1);
    let b = &ssa.blocks[0];
    assert_eq!(b.name, "block_0");
    assert_eq!(b.start_depth, 0);
    assert_eq!(b.ops.len(), 2);
    assert!(matches!(b.ops[0], OP::MoveImm { src: ImmediateValue::Null, dest: Variable::Stack { addr: 1, unique: 0 } }));
    assert!(matches!(b.ops[1], OP::MoveImm { src: ImmediateValue::Integer(0), dest: Variable::Stack { addr: 2, unique: 0 } }));
    assert_eq!(b.terminator, SSATerminator::Return { var: Variable::Stack { addr: 2, unique: 0 } });
}

#[test]
fn missing_sections_are_reported() {
    let bytes = section(0xC0DEBABE, &code_body());
    let sections = Parser::new(BinaryReader::new(&bytes, bytes.len() as u64)).parse().unwrap();
    assert!(matches!(MCD::try_new(sections, None), Err(McdError::MissingDataSection)));

    let bytes = section(0xDA7ABABE, &data_body());
    let sections = Parser::new(BinaryReader::new(&bytes, bytes.len() as u64)).parse().unwrap();
    assert!(matches!(MCD::try_new(sections, None), Err(McdError::MissingCodeSection)));
}

#[test]
fn method_outside_code_is_reported() {
    let mut v = section(0xDA7ABABE, &data_body());
    v.extend(section(0xC0DEBABE, &[55, 22]));
    // shift the method to address 1, which is no instruction
    let mut d = data_body();
    let n = d.len();
    d[n - 1] = 5;
    let mut bad = section(0xDA7ABABE, &d);
    bad.extend(section(0xC0DEBABE, &[53, 0, 22]));
    let sections = Parser::new(BinaryReader::new(&bad, bad.len() as u64)).parse().unwrap();
    assert!(matches!(MCD::try_new(sections, None), Err(McdError::MissingMethodCode(_))));
    let sections = Parser::new(BinaryReader::new(&v, v.len() as u64)).parse().unwrap();
    assert!(MCD::try_new(sections, None).is_ok());
}

#[test]
fn symbol_names_by_source() {
    let bytes = image();
    let sections = Parser::new(BinaryReader::new(&bytes, bytes.len() as u64)).parse().unwrap();
    let mut api = HashMap::new();
    api.insert(1u32, "apiOne".to_string());
    let mut mcd = MCD::try_new(sections, Some(api)).unwrap();
    mcd.symbols.set_symbol_name(1, "mine".to_string());
    mcd.symbols.set_symbol_name(2, "two".to_string());
    assert_eq!(mcd.symbols.get_symbol_name(1), Some("apiOne"));
    assert_eq!(mcd.symbols.get_symbol_name(2), Some("two"));
    assert_eq!(mcd.symbols.get_symbol_name(3), None);
    let mut listed = mcd.symbols.iter_symbols();
    listed.sort_by_key(|s| s.key);
    assert_eq!(listed.len(), 2);
    assert_eq!(listed[0].key, 1);
    assert_eq!(listed[0].source, SymbolSource::User);
    assert_eq!(listed[0].name, "mine");
    assert_eq!(listed[1].source, SymbolSource::User);
}

#[test]
fn analysis_errors_compare() {
    let e: AnalysisError<DisassemblyError> = AnalysisError::Failure(DisassemblyError::CannotDissasembleJSR);
    assert_eq!(e, AnalysisError::Failure(DisassemblyError::CannotDissasembleJSR));
    let d: AnalysisError<DisassemblyError> = AnalysisError::DependencyFailure(ErrorUnion::Disassembler(DisassemblyError::MalformedControlFlow));
    assert_ne!(e, d);
    assert_eq!(ILType::all(), vec![ILType::Disassembly, ILType::SSA]);
}

fn image_with_code(code: &[u8]) -> Vec<u8> {
    let mut v = section(0xDA7ABABE, &data_body());
    v.extend(section(0xC0DEBABE, code));
    v
}

#[test]
fn failed_analyses_are_reported_in_the_status() {
    // ARGC 0; IPUSHZ, and no return: control falls off the end
    let bytes = image_with_code(&[53, 0, 55]);
    let sections = Parser::new(BinaryReader::new(&bytes, bytes.len() as u64)).parse().unwrap();
    let mut mcd = MCD::try_new(sections, None).unwrap();
    let f = &mut mcd.functions[0];
    assert!(matches!(f.with_disassembly(), Err(AnalysisError::Failure(DisassemblyError::MalformedControlFlow))));
    assert_eq!(f.get_il_status(ILType::Disassembly), "Failed: MalformedControlFlow");
    assert!(matches!(
        f.with_ssa(),
        Err(AnalysisError::DependencyFailure(ErrorUnion::Disassembler(DisassemblyError::MalformedControlFlow)))
    ));
    assert_eq!(f.get_il_status(ILType::SSA), "Not Analyzed");

    // ARGC 0; NOP; RETURN: the SSA form has no operation for NOP
    let bytes = image_with_code(&[53, 0, 0, 22]);
    let sections = Parser::new(BinaryReader::new(&bytes, bytes.len() as u64)).parse().unwrap();
    let mut mcd = MCD::try_new(sections, None).unwrap();
    let f = &mut mcd.functions[0];
    let status = match f.with_ssa() {
        Err(AnalysisError::Failure(e)) => format!("Failed: {e:?}"),
        Ok(_) => "OK".to_string(),
        Err(_) => "other".to_string(),
    };
    assert_eq!(status, "Failed: UnsupportedOpcode(NOP)");
    assert_eq!(f.get_il_status(ILType::SSA), status);
    assert_eq!(f.get_il_status(ILType::Disassembly), "OK");
}

#[test]
fn symbols_are_listed_user_first_then_api() {
    let bytes = image();
    let sections = Parser::new(BinaryReader::new(&bytes, bytes.len() as u64)).parse().unwrap();
    let mut api = HashMap::new();
    for k in 1u32..20 {
        api.insert(k, format!("api{k}"));
    }
    let mut mcd = MCD::try_new(sections, Some(api)).unwrap();
    mcd.symbols.set_symbol_name(50, "mine".to_string());
    mcd.symbols.set_symbol_name(3, "shadowed".to_string());
    let listed = mcd.symbols.iter_symbols();
    assert_eq!(listed.len(), 20);
    let firsts: Vec<SymbolSource> = listed.iter().take(2).map(|s| s.source).collect();
    assert_eq!(firsts, vec![SymbolSource::User, SymbolSource::User]);
    assert!(listed.iter().skip(2).all(|s| s.source == SymbolSource::ApiDb));
}

#[test]
fn symbol_section_names_are_kept() {
    let mut body = 1u16.to_be_bytes().to_vec();
    body.extend_from_slice(&7u32.to_be_bytes()); // symbol 7
    body.extend_from_slice(&10u32.to_be_bytes()); // its name at offset 10
    body.push(0);
    body.extend_from_slice(&3u16.to_be_bytes());
    body.extend_from_slice(b"abc");
    body.push(0);
    let mut bytes = image();
    bytes.extend(section(0x5717B015, &body));
    let sections = Parser::new(BinaryReader::new(&bytes, bytes.len() as u64)).parse().unwrap();
    let mcd = MCD::try_new(sections, None).unwrap();
    assert_eq!(mcd.symbols.get_symbol_name(7), Some("abc"));
    let listed = mcd.symbols.iter_symbols();
    assert_eq!(listed.len(), 1);
    assert_eq!(listed[0].source, SymbolSource::SymbolSection);
}
