use mcd::analysis::{parse_symbol_db_line, symbol_db_from_lines};
use mcd::arrows::{chars_needed, layout_arrows, AddressRange, ArrowType, Arrows};
use mcd::navigation::{
    key_action, mode_of, Action, Key, Mode, moved_selection, next_tab_index, prev_tab_index, scrolled, FocusedPane, ILStatus, InsertFocus,
};
use mcd::traits::GenericTerminator;

fn render(a: &Arrows, addr: usize, nudge: bool) -> String {
    a.render_at_addr(addr, nudge).into_iter().collect()
}

#[test]
fn ranges_intersect_whichever_way_they_point() {
    let a = AddressRange::new(0, 5);
    let b = AddressRange::new(7, 5);
    let c = AddressRange::new(6, 9);
    assert!(a.intersects(&b));
    assert!(b.intersects(&a));
    assert!(!a.intersects(&c));
    assert_eq!(b.first_addr(), 5);
    assert_eq!(b.last_addr(), 7);
}

#[test]
fn no_arrows_render_as_an_empty_head() {
    let a = Arrows::new();
    assert_eq!(render(&a, 0, false), "  ");
    assert_eq!(render(&a, 3, true), "  ");
}

#[test]
fn arrows_take_the_least_free_depth() {
    let mut a = Arrows::new();
    a.add_arrow(0, 5, ArrowType::Always);
    // a fall through is not drawn
    a.add_arrow(2, 3, ArrowType::IfTrue);
    a.add_arrow(3, 8, ArrowType::IfFalse);
    a.add_arrow(6, 9, ArrowType::Always);
    // depth 1 for the second arrow (it meets the first), depth 0 for the third
    assert_eq!(render(&a, 0, false), " ╭─ ");
    assert_eq!(render(&a, 3, false), "╭│─ ");
    assert_eq!(render(&a, 5, false), "│╰▶ ");
    assert_eq!(render(&a, 6, false), "│╭─ ");
    assert_eq!(render(&a, 8, false), "╰│▶ ");
    assert_eq!(render(&a, 9, false), " ╰▶ ");
}

#[test]
fn horizontal_lines_run_towards_the_listing() {
    let mut a = Arrows::new();
    a.add_arrow(0, 3, ArrowType::Always);
    a.add_arrow(2, 6, ArrowType::Always);
    assert_eq!(render(&a, 6, false), "╰─▶ ");
    let mut b = Arrows::new();
    b.add_arrow(0, 5, ArrowType::Always);
    b.add_arrow(0, 8, ArrowType::IfTrue);
    assert_eq!(render(&b, 0, false), "╭┬─ ");
    let mut c = Arrows::new();
    c.add_arrow(0, 5, ArrowType::Always);
    c.add_arrow(3, 5, ArrowType::IfFalse);
    assert_eq!(render(&c, 5, false), "╰┴▶ ");
    let mut d = Arrows::new();
    d.add_arrow(0, 3, ArrowType::Always);
    d.add_arrow(3, 7, ArrowType::Always);
    assert_eq!(render(&d, 3, false), "╭┴■ ");
}

#[test]
fn nudged_lines_only_pass_arrows_through() {
    let mut a = Arrows::new();
    a.add_arrow(0, 5, ArrowType::Always);
    assert_eq!(render(&a, 0, true), "   ");
    assert_eq!(render(&a, 3, true), "│  ");
    assert_eq!(render(&a, 5, true), "│  ");
}

#[test]
fn upward_arrows_enter_at_the_top() {
    let mut a = Arrows::new();
    a.add_arrow(6, 2, ArrowType::Always);
    assert_eq!(render(&a, 2, false), "╭▶ ");
    assert_eq!(render(&a, 4, false), "│  ");
    assert_eq!(render(&a, 6, false), "╰─ ");
}

#[test]
fn digits_of_a_number() {
    assert_eq!(chars_needed(0), 1);
    assert_eq!(chars_needed(9), 1);
    assert_eq!(chars_needed(10), 2);
    assert_eq!(chars_needed(12345), 5);
}

#[test]
fn layout_of_a_loop() {
    // block 0: three lines, jumps to block 2; block 1: two lines, returns;
    // block 2: two lines, branches back to block 0 or on to block 1
    let lens = vec![3usize, 2, 2];
    let terms = vec![
        GenericTerminator::Jump { target: 2 },
        GenericTerminator::Return,
        GenericTerminator::BranchTrue { target_true: 0, target_false: 1 },
    ];
    let a = layout_arrows(&lens, &terms).unwrap();
    // arrows: 2 -> 5 at depth 0, 6 -> 0 at depth 1, 6 -> 3 at depth 2
    assert_eq!(render(&a, 0, false), " ╭─▶ ");
    assert_eq!(render(&a, 3, false), "╭││▶ ");
    assert_eq!(render(&a, 6, false), "╰┴── ");
}

#[test]
fn layout_sends_a_target_past_the_end_to_the_end() {
    // the target line is the lengths of all blocks added up: line 2, the
    // next line after the jump, so no arrow is drawn
    let lens = vec![2usize];
    let terms = vec![GenericTerminator::Jump { target: 4 }];
    let a = layout_arrows(&lens, &terms).unwrap();
    assert_eq!(render(&a, 1, false), "  ");
    let lens = vec![2usize, 3];
    let terms = vec![GenericTerminator::Jump { target: 9 }, GenericTerminator::Return];
    let a = layout_arrows(&lens, &terms).unwrap();
    assert_eq!(render(&a, 1, false), "╭─ ");
    assert_eq!(render(&a, 5, false), "╰▶ ");
}

#[test]
fn layout_aborts_on_an_arrow_to_its_own_line() {
    let lens = vec![1usize];
    let terms = vec![GenericTerminator::Jump { target: 0 }];
    assert!(layout_arrows(&lens, &terms).is_none());
}

#[test]
fn il_status_words() {
    assert_eq!(ILStatus::Okay.to_string(), "OK");
    assert_eq!(ILStatus::Pending.to_string(), "PENDING");
    assert_eq!(ILStatus::Error.to_string(), "ERROR");
}

#[test]
fn panes_cycle_and_tabs_wrap() {
    assert_eq!(FocusedPane::FunctionList.cycled(), FocusedPane::ILList);
    assert_eq!(FocusedPane::ILList.cycled(), FocusedPane::ILView);
    assert_eq!(FocusedPane::ILView.cycled(), FocusedPane::FunctionList);
    assert_eq!(FocusedPane::SymbolTable.cycled(), FocusedPane::SymbolTable);
    assert_eq!(FocusedPane::for_tab(1), FocusedPane::SymbolTable);
    assert_eq!(FocusedPane::for_tab(0), FocusedPane::FunctionList);
    assert_eq!(InsertFocus::Address.toggled(), InsertFocus::Name);
    assert_eq!(InsertFocus::Name.toggled(), InsertFocus::Address);
    assert_eq!(next_tab_index(0, 2), 1);
    assert_eq!(next_tab_index(1, 2), 0);
    assert_eq!(prev_tab_index(0, 2), 1);
    assert_eq!(prev_tab_index(1, 2), 0);
    for t in 0..5usize {
        assert_eq!(prev_tab_index(next_tab_index(t, 5), 5), t);
    }
}

#[test]
fn selection_moves_round_the_list() {
    assert_eq!(moved_selection(None, 1, 0), None);
    assert_eq!(moved_selection(Some(3), 1, 0), Some(3));
    assert_eq!(moved_selection(None, 1, 4), Some(1));
    assert_eq!(moved_selection(Some(3), 1, 4), Some(0));
    assert_eq!(moved_selection(Some(0), -1, 4), Some(3));
    assert_eq!(moved_selection(Some(2), -7, 4), Some(3));
}

#[test]
fn scrolling_saturates() {
    assert_eq!(scrolled(0, -1), 0);
    assert_eq!(scrolled(5, -2), 3);
    assert_eq!(scrolled(5, 2), 7);
    assert_eq!(scrolled(65534, 5), 65535);
}

#[test]
fn api_database_lines() {
    assert_eq!(parse_symbol_db_line("toString 12"), Some((12, "toString".to_string())));
    assert_eq!(parse_symbol_db_line("  draw\t+7  "), Some((7, "draw".to_string())));
    assert_eq!(parse_symbol_db_line("draw 7 extra"), None);
    assert_eq!(parse_symbol_db_line("draw"), None);
    assert_eq!(parse_symbol_db_line("draw x7"), None);
    assert_eq!(parse_symbol_db_line("draw 4294967296"), None);
    let lines = vec![
        "a 1".to_string(),
        "b 2".to_string(),
        "broken".to_string(),
        "c 1".to_string(),
    ];
    let m = symbol_db_from_lines(&lines);
    assert_eq!(m.len(), 2);
    assert_eq!(m.get(&1).map(|s| s.as_str()), Some("c"));
    assert_eq!(m.get(&2).map(|s| s.as_str()), Some("b"));
}

#[test]
fn keys_by_mode_and_tab() {
    assert_eq!(mode_of(true, true, true), Mode::Insert);
    assert_eq!(mode_of(false, true, true), Mode::Rename);
    assert_eq!(mode_of(false, false, true), Mode::Search);
    assert_eq!(mode_of(false, false, false), Mode::Normal);
    assert_eq!(key_action(Mode::Insert, 0, Key::Tab), Action::ToggleInsertFocus);
    assert_eq!(key_action(Mode::Insert, 1, Key::Char('q')), Action::EditInsert);
    assert_eq!(key_action(Mode::Rename, 1, Key::Tab), Action::EditRename);
    assert_eq!(key_action(Mode::Rename, 1, Key::Enter), Action::ConfirmRename);
    assert_eq!(key_action(Mode::Search, 1, Key::Esc), Action::CancelSearch);
    assert_eq!(key_action(Mode::Normal, 1, Key::Char('q')), Action::Quit);
    assert_eq!(key_action(Mode::Normal, 0, Key::PageDown), Action::NextTab);
    assert_eq!(key_action(Mode::Normal, 0, Key::Up), Action::MovePosition(-1));
    assert_eq!(key_action(Mode::Normal, 0, Key::Tab), Action::CyclePane);
    assert_eq!(key_action(Mode::Normal, 0, Key::Char('n')), Action::Nothing);
    assert_eq!(key_action(Mode::Normal, 1, Key::Down), Action::SelectSymbol(true));
    assert_eq!(key_action(Mode::Normal, 1, Key::Char('/')), Action::StartSearch);
    assert_eq!(key_action(Mode::Normal, 1, Key::Tab), Action::Nothing);
    assert_eq!(key_action(Mode::Normal, 2, Key::Down), Action::Nothing);
}
