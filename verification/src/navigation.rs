//! What the viewer shows about a program, and how its keys move through it:
//! the decisions of the user interface, apart from the drawing.
use vstd::prelude::*;

verus! {

/// A function as the function list shows it.
#[derive(Clone)]
pub struct FunctionInfo {
    pub name: String,
    pub address: u64,
    pub args: u8,
}

/// The status of an intermediate language as the list shows it.
#[derive(Clone, Copy, Debug, PartialEq, Eq, Structural)]
pub enum ILStatus {
    Okay,
    Pending,
    Error,
}

impl ILStatus {
    pub open spec fn spec_text(self) -> Seq<char> {
        match self {
            ILStatus::Okay => seq!['O', 'K'],
            ILStatus::Pending => seq!['P', 'E', 'N', 'D', 'I', 'N', 'G'],
            ILStatus::Error => seq!['E', 'R', 'R', 'O', 'R'],
        }
    }

    /// The status as a word.
    pub fn to_string(&self) -> (s: &'static str)
        ensures
            s@ == self.spec_text(),
    {
        match self {
            ILStatus::Okay => {
                proof { reveal_strlit("OK"); }
                "OK"
            },
            ILStatus::Pending => {
                proof { reveal_strlit("PENDING"); }
                "PENDING"
            },
            ILStatus::Error => {
                proof { reveal_strlit("ERROR"); }
                "ERROR"
            },
        }
    }
}

/// An intermediate language as the list shows it.
#[derive(Clone)]
pub struct ILInfo {
    pub name: String,
    pub status: ILStatus,
}

/// A symbol as the symbol table shows it.
#[derive(Clone)]
pub struct Symbol {
    pub id: String,
    pub value: String,
}

/// The pane that the keys act on.
#[derive(Clone, Copy, Debug, PartialEq, Eq, Structural)]
pub enum FocusedPane {
    FunctionList,
    ILList,
    ILView,
    SymbolTable,
}

/// The field of the insert dialog that the keys act on.
#[derive(Clone, Copy, Debug, PartialEq, Eq, Structural)]
pub enum InsertFocus {
    Address,
    Name,
}

impl InsertFocus {
    /// The other field.
    pub fn toggled(self) -> (f: InsertFocus)
        ensures
            f == (match self {
                InsertFocus::Address => InsertFocus::Name,
                InsertFocus::Name => InsertFocus::Address,
            }),
    {
        match self {
            InsertFocus::Address => InsertFocus::Name,
            InsertFocus::Name => InsertFocus::Address,
        }
    }
}

impl FocusedPane {
    /// The next pane of the code listing, round in a circle; the symbol
    /// table keeps the focus.
    pub fn cycled(self) -> (p: FocusedPane)
        ensures
            p == cycle_spec(self),
    {
        match self {
            FocusedPane::FunctionList => FocusedPane::ILList,
            FocusedPane::ILList => FocusedPane::ILView,
            FocusedPane::ILView => FocusedPane::FunctionList,
            FocusedPane::SymbolTable => FocusedPane::SymbolTable,
        }
    }

    /// The pane that a tab starts focused on: the symbol table on the
    /// second tab, the function list on every other.
    pub fn for_tab(tab_index: usize) -> (p: FocusedPane)
        ensures
            p == (if tab_index == 1 { FocusedPane::SymbolTable } else { FocusedPane::FunctionList }),
    {
        if tab_index == 1 {
            FocusedPane::SymbolTable
        } else {
            FocusedPane::FunctionList
        }
    }
}

/// The tab after `tab_index` of `tabs`, round in a circle.
pub fn next_tab_index(tab_index: usize, tabs: usize) -> (r: usize)
    requires
        tabs > 0,
        tab_index < usize::MAX,
    ensures
        r == (tab_index + 1) % (tabs as int),
        r < tabs,
{
    (tab_index + 1) % tabs
}

/// The tab before `tab_index` of `tabs`, round in a circle.
pub fn prev_tab_index(tab_index: usize, tabs: usize) -> (r: usize)
    requires
        tabs > 0,
    ensures
        r == (if tab_index > 0 { tab_index - 1 } else { tabs - 1 }),
{
    if tab_index > 0 {
        tab_index - 1
    } else {
        tabs - 1
    }
}

/// The selection in a list of `list_len` moved by `offset`, round in a
/// circle: nothing changes in an empty list, and no selection counts as
/// the first line.
pub open spec fn spec_moved_selection(current: Option<usize>, offset: i32, list_len: usize) -> Option<usize> {
    if list_len == 0 {
        current
    } else {
        let c: i32 = (match current {
            Some(x) => x,
            None => 0,
        }) as i32;
        let m = list_len as i32;
        let modulus: int = if m < 0 { -m } else { m as int };
        Some(((c + offset) % modulus) as usize)
    }
}

/// Whether moving the selection stays within the machine's integers: the
/// new position fits in 32 bits, and the length is not a multiple of 2^32.
pub open spec fn selection_move_fits(current: Option<usize>, offset: i32, list_len: usize) -> bool {
    list_len == 0 || {
        let c: i32 = (match current {
            Some(x) => x,
            None => 0,
        }) as i32;
        &&& i32::MIN <= c + offset <= i32::MAX
        &&& list_len as i32 != 0
    }
}

/// Moves the selection of a list by `offset`.
pub fn moved_selection(current: Option<usize>, offset: i32, list_len: usize) -> (r: Option<usize>)
    requires
        selection_move_fits(current, offset, list_len),
    ensures
        r == spec_moved_selection(current, offset, list_len),
{
    if list_len == 0 {
        return current;
    }
    let cur: usize = match current {
        Some(x) => x,
        None => 0,
    };
    let c: i32 = #[verifier::truncate] (cur as i32);
    let new_pos: i32 = c + offset;
    let m: i32 = #[verifier::truncate] (list_len as i32);
    let modulus: i64 = if m < 0 { -(m as i64) } else { m as i64 };
    let x: i64 = new_pos as i64;
    let r: i64 = euclid_rem(x, modulus);
    Some(r as usize)
}

/// The Euclidean remainder of `x` by a positive `m`.
fn euclid_rem(x: i64, m: i64) -> (r: i64)
    requires
        m > 0,
        x > i64::MIN,
    ensures
        r == (x as int) % (m as int),
        0 <= r < m,
{
    let mu = m as u64;
    if x >= 0 {
        let t = (x as u64) % mu;
        t as i64
    } else {
        let y: u64 = (-x) as u64;
        let t = y % mu;
        if t == 0 {
            proof {
                let q = (y as int) / (m as int);
                vstd::arithmetic::div_mod::lemma_fundamental_div_mod(y as int, m as int);
                assert(x as int == (-q) * (m as int) + 0) by (nonlinear_arith)
                    requires
                        x as int == -(y as int),
                        y as int == (m as int) * q + 0,
                {
                }
                vstd::arithmetic::div_mod::lemma_fundamental_div_mod_converse(x as int, m as int, -q, 0);
            }
            0
        } else {
            let r = m - (t as i64);
            proof {
                let q = (y as int) / (m as int);
                vstd::arithmetic::div_mod::lemma_fundamental_div_mod(y as int, m as int);
                assert(x as int == (-q - 1) * (m as int) + (r as int)) by (nonlinear_arith)
                    requires
                        x as int == -(y as int),
                        y as int == (m as int) * q + (t as int),
                        r as int == (m as int) - (t as int),
                {
                }
                vstd::arithmetic::div_mod::lemma_fundamental_div_mod_converse(x as int, m as int, -q - 1, r as int);
            }
            r
        }
    }
}

/// The scroll position of the IL view moved by `offset`, held within
/// 16 bits.
pub open spec fn spec_scrolled(scroll: u16, offset: i32) -> u16 {
    if offset > 0 {
        let step = offset as u16;
        if scroll + step > u16::MAX { u16::MAX } else { (scroll + step) as u16 }
    } else {
        let step = (-offset) as u16;
        if scroll < step { 0 } else { (scroll - step) as u16 }
    }
}

/// Scrolls the IL view by `offset` lines.
pub fn scrolled(scroll: u16, offset: i32) -> (r: u16)
    requires
        offset != i32::MIN,
    ensures
        r == spec_scrolled(scroll, offset),
{
    if offset > 0 {
        let step: u16 = #[verifier::truncate] (offset as u16);
        scroll.saturating_add(step)
    } else {
        let step: u16 = #[verifier::truncate] ((-offset) as u16);
        scroll.saturating_sub(step)
    }
}

/// Moving to the next tab and back again returns to the tab one started
/// from; cycling the panes of the code listing three times returns to the
/// pane one started from.
pub proof fn lemma_tabs_round_trip(tab_index: usize, tabs: usize, pane: FocusedPane)
    requires
        tab_index < tabs,
    ensures
        ({
            let next = (tab_index + 1) % (tabs as int);
            (if next > 0 { next - 1 } else { tabs - 1 }) == tab_index
        }),
        pane != FocusedPane::SymbolTable ==> cycle_spec(cycle_spec(cycle_spec(pane))) == pane,
{
    if tab_index + 1 < tabs {
        vstd::arithmetic::div_mod::lemma_small_mod((tab_index + 1) as nat, tabs as nat);
    } else {
        vstd::arithmetic::div_mod::lemma_mod_self_0(tabs as int);
    }
}

/// The pane after `p` when the focus cycles.
pub open spec fn cycle_spec(p: FocusedPane) -> FocusedPane {
    match p {
        FocusedPane::FunctionList => FocusedPane::ILList,
        FocusedPane::ILList => FocusedPane::ILView,
        FocusedPane::ILView => FocusedPane::FunctionList,
        FocusedPane::SymbolTable => FocusedPane::SymbolTable,
    }
}

/// A key the viewer reacts to; every other key is `Other`.
#[derive(Clone, Copy, Debug, PartialEq, Eq, Structural)]
pub enum Key {
    Char(char),
    Esc,
    Enter,
    Tab,
    Up,
    Down,
    PageUp,
    PageDown,
    Other,
}

/// Which dialog, if any, takes the keys.
#[derive(Clone, Copy, Debug, PartialEq, Eq, Structural)]
pub enum Mode {
    Insert,
    Rename,
    Search,
    Normal,
}

/// The dialog that takes the keys: the insert dialog before the rename
/// dialog before the search dialog.
pub fn mode_of(insert_open: bool, rename_open: bool, search_open: bool) -> (m: Mode)
    ensures
        m == (if insert_open {
            Mode::Insert
        } else if rename_open {
            Mode::Rename
        } else if search_open {
            Mode::Search
        } else {
            Mode::Normal
        }),
{
    if insert_open {
        Mode::Insert
    } else if rename_open {
        Mode::Rename
    } else if search_open {
        Mode::Search
    } else {
        Mode::Normal
    }
}

/// What a key press does.
#[derive(Clone, Copy, Debug, PartialEq, Eq, Structural)]
pub enum Action {
    Nothing,
    /// Close the insert dialog.
    CancelInsert,
    /// Name the address typed in, where both fields are filled.
    ConfirmInsert,
    ToggleInsertFocus,
    /// Hand the key to the focused field of the insert dialog.
    EditInsert,
    CancelRename,
    /// Give the symbol the name typed in, where it is not empty.
    ConfirmRename,
    EditRename,
    CancelSearch,
    /// Take the text typed in as the filter of the symbol table.
    ConfirmSearch,
    EditSearch,
    Quit,
    NextTab,
    PrevTab,
    /// Move the selection of the focused pane, or scroll the IL view.
    MovePosition(i32),
    CyclePane,
    /// Move the selection of the symbol table down or up.
    SelectSymbol(bool),
    StartRename,
    StartInsert,
    StartSearch,
}

/// What a key press does in a mode, on tab `tab_index`: a dialog takes
/// every key, closing on `Esc` and confirming on `Enter`; otherwise `q`
/// quits, the page keys change the tab, and each tab has keys of its own.
pub open spec fn spec_key_action(mode: Mode, tab_index: usize, key: Key) -> Action {
    match mode {
        Mode::Insert => match key {
            Key::Esc => Action::CancelInsert,
            Key::Enter => Action::ConfirmInsert,
            Key::Tab => Action::ToggleInsertFocus,
            _ => Action::EditInsert,
        },
        Mode::Rename => match key {
            Key::Esc => Action::CancelRename,
            Key::Enter => Action::ConfirmRename,
            _ => Action::EditRename,
        },
        Mode::Search => match key {
            Key::Esc => Action::CancelSearch,
            Key::Enter => Action::ConfirmSearch,
            _ => Action::EditSearch,
        },
        Mode::Normal => match key {
            Key::Char('q') => Action::Quit,
            Key::PageDown => Action::NextTab,
            Key::PageUp => Action::PrevTab,
            _ => if tab_index == 0 {
                match key {
                    Key::Down => Action::MovePosition(1i32),
                    Key::Up => Action::MovePosition(-1i32),
                    Key::Tab => Action::CyclePane,
                    _ => Action::Nothing,
                }
            } else if tab_index == 1 {
                match key {
                    Key::Down => Action::SelectSymbol(true),
                    Key::Up => Action::SelectSymbol(false),
                    Key::Char('n') => Action::StartRename,
                    Key::Char('i') => Action::StartInsert,
                    Key::Char('/') => Action::StartSearch,
                    _ => Action::Nothing,
                }
            } else {
                Action::Nothing
            },
        },
    }
}

pub fn key_action(mode: Mode, tab_index: usize, key: Key) -> (a: Action)
    ensures
        a == spec_key_action(mode, tab_index, key),
{
    match mode {
        Mode::Insert => match key {
            Key::Esc => Action::CancelInsert,
            Key::Enter => Action::ConfirmInsert,
            Key::Tab => Action::ToggleInsertFocus,
            _ => Action::EditInsert,
        },
        Mode::Rename => match key {
            Key::Esc => Action::CancelRename,
            Key::Enter => Action::ConfirmRename,
            _ => Action::EditRename,
        },
        Mode::Search => match key {
            Key::Esc => Action::CancelSearch,
            Key::Enter => Action::ConfirmSearch,
            _ => Action::EditSearch,
        },
        Mode::Normal => match key {
            Key::Char('q') => Action::Quit,
            Key::PageDown => Action::NextTab,
            Key::PageUp => Action::PrevTab,
            _ => {
                if tab_index == 0 {
                    match key {
                        Key::Down => Action::MovePosition(1i32),
                        Key::Up => Action::MovePosition(-1i32),
                        Key::Tab => Action::CyclePane,
                        _ => Action::Nothing,
                    }
                } else if tab_index == 1 {
                    match key {
                        Key::Down => Action::SelectSymbol(true),
                        Key::Up => Action::SelectSymbol(false),
                        Key::Char('n') => Action::StartRename,
                        Key::Char('i') => Action::StartInsert,
                        Key::Char('/') => Action::StartSearch,
                        _ => Action::Nothing,
                    }
                } else {
                    Action::Nothing
                }
            },
        },
    }
}

} // verus!
