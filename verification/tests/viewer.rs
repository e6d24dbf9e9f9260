use std::collections::HashMap;

use mcd::analysis::{ILType, Symbol, SymbolDB, SymbolSource};
use mcd::constants::SymbolAddress;
use mcd::viewer::{
    address_label, arguments_label, contains_text, filtered_selection, filtered_symbols, function_heading,
    il_label, insert_target, joined_names, parse_address, symbol_matches, trim,
};

#[test]
fn text_search() {
    assert!(contains_text("onUpdate", "Upd"));
    assert!(contains_text("onUpdate", ""));
    assert!(contains_text("onUpdate", "onUpdate"));
    assert!(!contains_text("onUpdate", "update"));
    assert!(!contains_text("on", "onUpdate"));
    assert!(symbol_matches("onUpdate", "UPDATE"));
    assert!(symbol_matches("Ärger", "äR"));
    assert!(!symbol_matches("onShow", "hide"));
}

#[test]
fn symbol_filter_keeps_order() {
    let a = "initialize".to_string();
    let b = "onShow".to_string();
    let c = "onHide".to_string();
    let symbols = vec![
        Symbol { key: 1, name: &a, source: SymbolSource::ApiDb },
        Symbol { key: 2, name: &b, source: SymbolSource::User },
        Symbol { key: 3, name: &c, source: SymbolSource::SymbolSection },
    ];
    assert_eq!(filtered_symbols(&symbols, "on"), vec![1, 2]);
    assert_eq!(filtered_symbols(&symbols, "I"), vec![0, 2]);
    assert_eq!(filtered_symbols(&symbols, ""), vec![0, 1, 2]);
    assert_eq!(filtered_symbols(&symbols, "xyz"), Vec::<usize>::new());
    assert_eq!(SymbolSource::ApiDb.to_string(), "ApiDb");
    assert_eq!(SymbolSource::SymbolSection.to_string(), "SymbolSection");
    assert_eq!(SymbolSource::User.to_string(), "User");
}

#[test]
fn selection_in_the_filtered_table() {
    assert_eq!(filtered_selection(Some(3), true, 0), None);
    assert_eq!(filtered_selection(None, true, 3), Some(1));
    assert_eq!(filtered_selection(Some(2), true, 3), Some(0));
    assert_eq!(filtered_selection(Some(0), false, 3), Some(2));
    assert_eq!(filtered_selection(None, false, 3), Some(2));
    assert_eq!(filtered_selection(Some(7), false, 3), Some(0));
}

#[test]
fn trimming() {
    assert_eq!(trim("  a b \t\n"), "a b");
    assert_eq!(trim("\u{3000}x\u{A0}"), "x");
    assert_eq!(trim("   "), "");
    assert_eq!(trim(""), "");
}

#[test]
fn typed_addresses() {
    assert_eq!(parse_address("0x1f"), Some(31));
    assert_eq!(parse_address("  0xFF  "), Some(255));
    assert_eq!(parse_address("1234"), Some(1234));
    assert_eq!(parse_address("+12"), Some(12));
    assert_eq!(parse_address("0x+a"), Some(10));
    assert_eq!(parse_address("0X1f"), None);
    assert_eq!(parse_address("0x"), None);
    assert_eq!(parse_address("0x100000000"), None);
    assert_eq!(parse_address("4294967295"), Some(u32::MAX));
    assert_eq!(parse_address("4294967296"), None);
    assert_eq!(parse_address("-1"), None);
    assert_eq!(parse_address(""), None);
}

#[test]
fn labels() {
    assert_eq!(address_label(0x1000_00ab), "0x100000ab ");
    assert_eq!(address_label(0), "0x0 ");
    assert_eq!(arguments_label(2), "(2)");
    assert_eq!(function_heading("Main/onShow", 1), "function Main/onShow(1)");
    assert_eq!(il_label(ILType::SSA, "OK"), "SSA          OK");
    assert_eq!(il_label(ILType::Disassembly, "Not Analyzed"), "Disassembly  Not Analyzed");
    let mut api = HashMap::new();
    api.insert(5u32, "Main".to_string());
    let db = SymbolDB::new(None, Some(api));
    assert_eq!(joined_names(&vec![SymbolAddress(5), SymbolAddress(9)], &db), "Main/sym_9");
    assert_eq!(joined_names(&vec![SymbolAddress(5)], &db), "Main");
    assert_eq!(joined_names(&vec![], &db), "");
}

#[test]
fn words_of_a_line() {
    assert_eq!(mcd::text::split_words("  a  bc\td \u{3000}e"), vec!["a", "bc", "d", "e"]);
    assert_eq!(mcd::text::split_words(""), Vec::<String>::new());
    assert_eq!(mcd::text::split_words(" \n "), Vec::<String>::new());
    assert_eq!(mcd::text::split_words("one"), vec!["one"]);
}

#[test]
fn insert_dialog_target() {
    assert_eq!(insert_target(" 0x10 ", "name"), Some(16));
    assert_eq!(insert_target("12", ""), None);
    assert_eq!(insert_target("   ", "name"), None);
    assert_eq!(insert_target("zz", "name"), None);
}
