//! What the viewer computes for its lists and dialogs: the labels of
//! functions and languages, the filter of the symbol table, and the address
//! typed into the insert dialog.
use vstd::prelude::*;

use crate::analysis::{ILType, Symbol, SymbolSource};
use crate::constants::SymbolAddress;
use crate::text::{parse_radix_u32, parse_u32, spec_parse_radix_u32, spec_parse_u32, is_white_space, white_space, left_aligned, pad_right, prefixed_decimal, prefixed_lower_hex, spec_decimal, spec_hex};
use crate::traits::{AddressResolver, DisplayWithResolver, ResolvedNames};

verus! {

/// `str::to_lowercase`: the lower-case mapping of Unicode, which can map a
/// character to several.
pub uninterp spec fn spec_lowercase(s: Seq<char>) -> Seq<char>;

/// `str::to_lowercase`.
#[verifier::external_body]
fn to_lowercase(s: &str) -> (r: String)
    ensures
        r@ == spec_lowercase(s@),
{
    s.to_lowercase()
}

/// The `len` characters of `s` from position `i` on.
pub open spec fn window(s: Seq<char>, i: int, len: int) -> Seq<char> {
    s.subrange(i, i + len)
}

/// Whether `needle` occurs in `hay` as a run of characters.
pub open spec fn occurs_in(needle: Seq<char>, hay: Seq<char>) -> bool {
    exists|i: int| 0 <= i && i + needle.len() <= hay.len() && #[trigger] window(hay, i, needle.len() as int) == needle
}

/// Whether `needle` occurs in `hay`, as `str::contains` with a `&str`.
pub fn contains_text(hay: &str, needle: &str) -> (b: bool)
    ensures
        b == occurs_in(needle@, hay@),
{
    let n = hay.unicode_len();
    let m = needle.unicode_len();
    if m > n {
        return false;
    }
    let mut i: usize = 0;
    while i <= n - m
        invariant
            n == hay@.len(),
            m == needle@.len(),
            m <= n,
            i <= n - m + 1,
            forall|k: int| 0 <= k < i ==> #[trigger] window(hay@, k, m as int) != needle@,
        decreases n - m + 1 - i,
    {
        let mut j: usize = 0;
        while j < m
            invariant
                n == hay@.len(),
                m == needle@.len(),
                i + m <= n,
                j <= m,
                forall|k: int| 0 <= k < j ==> hay@[i + k] == needle@[k],
            ensures
                j <= m,
                forall|k: int| 0 <= k < j ==> hay@[i + k] == needle@[k],
                j < m ==> hay@[i + j] != needle@[j as int],
            decreases m - j,
        {
            if hay.get_char(i + j) != needle.get_char(j) {
                break;
            }
            j = j + 1;
        }
        if j == m {
            assert(window(hay@, i as int, m as int) =~= needle@);
            return true;
        }
        assert(window(hay@, i as int, m as int)[j as int] != needle@[j as int]);
        i = i + 1;
    }
    assert forall|k: int| 0 <= k && k + needle@.len() <= hay@.len() implies #[trigger] window(hay@, k, needle@.len() as int) != needle@ by {
        assert(k < i);
    }
    false
}

/// Whether a symbol's name passes the filter: the query occurs in it, case
/// aside.
pub open spec fn name_matches(name: Seq<char>, query: Seq<char>) -> bool {
    occurs_in(spec_lowercase(query), spec_lowercase(name))
}

pub fn symbol_matches(name: &str, query: &str) -> (b: bool)
    ensures
        b == name_matches(name@, query@),
{
    let n = to_lowercase(name);
    let q = to_lowercase(query);
    contains_text(n.as_str(), q.as_str())
}

/// The positions of the first `n` names that pass the filter, in order.
pub open spec fn matching_positions(names: Seq<Seq<char>>, query: Seq<char>, n: int) -> Seq<usize>
    decreases n,
{
    if n <= 0 {
        seq![]
    } else if name_matches(names[n - 1], query) {
        matching_positions(names, query, n - 1).push((n - 1) as usize)
    } else {
        matching_positions(names, query, n - 1)
    }
}

/// The names of symbols.
pub open spec fn symbol_names(symbols: Seq<Symbol>) -> Seq<Seq<char>> {
    symbols.map_values(|s: Symbol| s.name@)
}

/// The positions of the symbols whose names pass the filter, in order.
pub fn filtered_symbols(symbols: &Vec<Symbol>, query: &str) -> (v: Vec<usize>)
    ensures
        v@ == matching_positions(symbol_names(symbols@), query@, symbols@.len() as int),
{
    let ghost names = symbol_names(symbols@);
    let mut v: Vec<usize> = Vec::new();
    let mut i: usize = 0;
    while i < symbols.len()
        invariant
            i <= symbols@.len(),
            names == symbol_names(symbols@),
            v@ == matching_positions(names, query@, i as int),
        decreases symbols@.len() - i,
    {
        if symbol_matches(symbols[i].name.as_str(), query) {
            v.push(i);
        }
        i = i + 1;
    }
    v
}

/// The selection in the filtered symbol table after moving one line down or
/// up, round in a circle; none in an empty table, and no selection counts
/// as the first line.
pub open spec fn spec_filtered_selection(current: Option<usize>, move_down: bool, len: usize) -> Option<usize> {
    if len == 0 {
        None
    } else {
        let c: int = match current {
            Some(x) => x as int,
            None => 0,
        };
        Some((if move_down { (c + 1) % (len as int) } else { (c + len - 1) % (len as int) }) as usize)
    }
}

pub fn filtered_selection(current: Option<usize>, move_down: bool, len: usize) -> (r: Option<usize>)
    requires
        len == 0 || ({
            let c: int = match current {
                Some(x) => x as int,
                None => 0,
            };
            if move_down { c + 1 <= usize::MAX } else { c + len <= usize::MAX }
        }),
    ensures
        r == spec_filtered_selection(current, move_down, len),
{
    if len == 0 {
        return None;
    }
    let c: usize = match current {
        Some(x) => x,
        None => 0,
    };
    if move_down {
        Some((c + 1) % len)
    } else {
        Some((c + len - 1) % len)
    }
}

/// A text without the white space at its start.
pub open spec fn trim_start(s: Seq<char>) -> Seq<char>
    decreases s.len(),
{
    if s.len() > 0 && is_white_space(s[0]) {
        trim_start(s.drop_first())
    } else {
        s
    }
}

/// A text without the white space at its end.
pub open spec fn trim_end(s: Seq<char>) -> Seq<char>
    decreases s.len(),
{
    if s.len() > 0 && is_white_space(s.last()) {
        trim_end(s.drop_last())
    } else {
        s
    }
}

/// `str::trim`: a text without the white space at either end.
pub open spec fn spec_trim(s: Seq<char>) -> Seq<char> {
    trim_end(trim_start(s))
}

proof fn lemma_trim_start(s: Seq<char>, a: int)
    requires
        0 <= a <= s.len(),
        forall|i: int| 0 <= i < a ==> is_white_space(#[trigger] s[i]),
        a == s.len() || !is_white_space(s[a]),
    ensures
        trim_start(s) == s.subrange(a, s.len() as int),
    decreases a,
{
    if a == 0 {
        assert(s.subrange(0, s.len() as int) =~= s);
    } else {
        assert(is_white_space(s[0]));
        let t = s.drop_first();
        assert forall|i: int| 0 <= i < a - 1 implies is_white_space(#[trigger] t[i]) by {
            assert(t[i] == s[i + 1]);
        }
        if a < s.len() {
            assert(t[a - 1] == s[a]);
        }
        lemma_trim_start(t, a - 1);
        assert(t.subrange(a - 1, t.len() as int) =~= s.subrange(a, s.len() as int));
    }
}

proof fn lemma_trim_end(s: Seq<char>, b: int)
    requires
        0 <= b <= s.len(),
        forall|i: int| b <= i < s.len() ==> is_white_space(#[trigger] s[i]),
        b == 0 || !is_white_space(s[b - 1]),
    ensures
        trim_end(s) == s.subrange(0, b),
    decreases s.len() - b,
{
    if b == s.len() {
        assert(s.subrange(0, b) =~= s);
    } else {
        assert(is_white_space(s.last()));
        let t = s.drop_last();
        assert forall|i: int| b <= i < t.len() implies is_white_space(#[trigger] t[i]) by {
            assert(t[i] == s[i]);
        }
        if b > 0 {
            assert(t[b - 1] == s[b - 1]);
        }
        lemma_trim_end(t, b);
        assert(t.subrange(0, b) =~= s.subrange(0, b));
    }
}

/// A text without the white space at either end, as `str::trim` gives it.
pub fn trim(s: &str) -> (r: &str)
    ensures
        r@ == spec_trim(s@),
{
    let n = s.unicode_len();
    let mut a: usize = 0;
    while a < n && white_space(s.get_char(a))
        invariant
            n == s@.len(),
            a <= n,
            forall|i: int| 0 <= i < a ==> is_white_space(#[trigger] s@[i]),
        decreases n - a,
    {
        a = a + 1;
    }
    proof { lemma_trim_start(s@, a as int); }
    let mut b: usize = n;
    while b > a && white_space(s.get_char(b - 1))
        invariant
            n == s@.len(),
            a <= b <= n,
            forall|i: int| b <= i < n ==> is_white_space(#[trigger] s@[i]),
        decreases b - a,
    {
        b = b - 1;
    }
    let t = s.substring_char(a, b);
    proof {
        let u = s@.subrange(a as int, n as int);
        assert forall|i: int| b - a <= i < u.len() implies is_white_space(#[trigger] u[i]) by {
            assert(u[i] == s@[a + i]);
        }
        if b > a {
            assert(u[b - a - 1] == s@[b - 1]);
        }
        lemma_trim_end(u, (b - a) as int);
        assert(u.subrange(0, (b - a) as int) =~= s@.subrange(a as int, b as int));
    }
    t
}

/// `u32::from_str_radix(s, 16)`.
pub open spec fn spec_parse_hex_u32(s: Seq<char>) -> Option<u32> {
    spec_parse_radix_u32(s, 16)
}

/// The address typed into the insert dialog: without white space at either
/// end, hexadecimal after `0x`, else decimal.
pub open spec fn spec_parse_address(text: Seq<char>) -> Option<u32> {
    let t = spec_trim(text);
    if t.len() >= 2 && t[0] == '0' && t[1] == 'x' {
        spec_parse_hex_u32(t.subrange(2, t.len() as int))
    } else {
        spec_parse_u32(t)
    }
}

pub fn parse_address(text: &str) -> (r: Option<u32>)
    ensures
        r == spec_parse_address(text@),
{
    let t = trim(text);
    let n = t.unicode_len();
    if n >= 2 && t.get_char(0) == '0' && t.get_char(1) == 'x' {
        parse_radix_u32(t.substring_char(2, n), 16)
    } else {
        parse_u32(t)
    }
}

/// The address that the insert dialog names: where a name and an address
/// are typed in, and the address reads as one.
pub fn insert_target(address: &str, name: &str) -> (r: Option<u32>)
    ensures
        r == (if name@.len() > 0 && spec_trim(address@).len() > 0 { spec_parse_address(address@) } else { None }),
{
    if name.unicode_len() > 0 && trim(address).unicode_len() > 0 {
        parse_address(address)
    } else {
        None
    }
}

/// A function's start address as the function list shows it.
pub fn address_label(addr: usize) -> (s: String)
    ensures
        s@ == "0x"@ + spec_hex(addr as nat, false) + " "@,
{
    let mut s = prefixed_lower_hex("0x", addr);
    s.append(" ");
    s
}

/// The names of a function, each as the resolver names it, joined by `/`.
pub open spec fn joined_text(names: Seq<SymbolAddress>, rn: ResolvedNames) -> Seq<char>
    decreases names.len(),
{
    if names.len() == 0 {
        seq![]
    } else if names.len() == 1 {
        names[0].spec_text(rn)
    } else {
        joined_text(names.drop_last(), rn) + "/"@ + names.last().spec_text(rn)
    }
}

pub fn joined_names<R: AddressResolver>(names: &Vec<SymbolAddress>, resolver: &R) -> (s: String)
    ensures
        s@ == joined_text(names@, resolver.names()),
{
    let ghost rn = resolver.names();
    let mut s = String::new();
    let mut i: usize = 0;
    while i < names.len()
        invariant
            i <= names@.len(),
            rn == resolver.names(),
            s@ == joined_text(names@.subrange(0, i as int), rn),
        decreases names@.len() - i,
    {
        if i > 0 {
            s.append("/");
        }
        let t = names[i].text_with_resolver(resolver);
        s.append(t.as_str());
        proof {
            let sub = names@.subrange(0, i + 1);
            assert(sub.drop_last() =~= names@.subrange(0, i as int));
            if i == 0 {
                assert(sub.len() == 1);
            }
            assert(s@ =~= joined_text(sub, rn));
        }
        i = i + 1;
    }
    assert(names@.subrange(0, i as int) =~= names@);
    s
}

/// A function's argument count as the function list shows it.
pub fn arguments_label(args: usize) -> (s: String)
    ensures
        s@ == "("@ + spec_decimal(args as nat) + ")"@,
{
    let mut s = prefixed_decimal("(", args);
    s.append(")");
    s
}

/// The heading of the IL view: the function's names and argument count.
pub fn function_heading(name: &str, args: usize) -> (s: String)
    ensures
        s@ == "function "@ + name@ + "("@ + spec_decimal(args as nat) + ")"@,
{
    let mut s = String::from_str("function ");
    s.append(name);
    let a = arguments_label(args);
    s.append(a.as_str());
    s
}

/// A language in the IL list: its name left aligned in thirteen, then its
/// status.
pub fn il_label(il: ILType, status: &str) -> (s: String)
    ensures
        s@ == pad_right(il.spec_name(), 13) + status@,
{
    let name = il.to_string();
    let mut s = left_aligned(name.as_str(), 13);
    s.append(status);
    s
}

impl SymbolSource {
    pub open spec fn spec_name(self) -> Seq<char> {
        match self {
            SymbolSource::ApiDb => "ApiDb"@,
            SymbolSource::SymbolSection => "SymbolSection"@,
            SymbolSource::User => "User"@,
        }
    }

    /// The source's name, as the symbol table shows it.
    pub fn to_string(&self) -> (s: &'static str)
        ensures
            s@ == self.spec_name(),
    {
        match self {
            SymbolSource::ApiDb => "ApiDb",
            SymbolSource::SymbolSection => "SymbolSection",
            SymbolSource::User => "User",
        }
    }
}

} // verus!
