use vstd::prelude::*;

verus! {

/// The character of a decimal digit.
pub open spec fn digit_char(d: nat) -> char {
    if d == 0 { '0' }
    else if d == 1 { '1' }
    else if d == 2 { '2' }
    else if d == 3 { '3' }
    else if d == 4 { '4' }
    else if d == 5 { '5' }
    else if d == 6 { '6' }
    else if d == 7 { '7' }
    else if d == 8 { '8' }
    else { '9' }
}

/// The decimal notation of `n`, without leading zeros.
pub open spec fn spec_decimal(n: nat) -> Seq<char>
    decreases n,
{
    if n < 10 {
        seq![digit_char(n)]
    } else {
        spec_decimal(n / 10).push(digit_char(n % 10))
    }
}

/// The character of a hexadecimal digit, in upper or lower case.
pub open spec fn hex_digit_char(d: nat, upper: bool) -> char {
    if d < 10 {
        digit_char(d)
    } else if d == 10 {
        if upper { 'A' } else { 'a' }
    } else if d == 11 {
        if upper { 'B' } else { 'b' }
    } else if d == 12 {
        if upper { 'C' } else { 'c' }
    } else if d == 13 {
        if upper { 'D' } else { 'd' }
    } else if d == 14 {
        if upper { 'E' } else { 'e' }
    } else {
        if upper { 'F' } else { 'f' }
    }
}

/// The hexadecimal notation of `n`, without leading zeros.
pub open spec fn spec_hex(n: nat, upper: bool) -> Seq<char>
    decreases n,
{
    if n < 16 {
        seq![hex_digit_char(n, upper)]
    } else {
        spec_hex(n / 16, upper).push(hex_digit_char(n % 16, upper))
    }
}

/// A character as `char::escape_default` writes it: tab, carriage return,
/// line feed, quotes and backslash with a backslash before them, printable
/// ASCII as itself, anything else as `\u{..}` with its code in lower-case
/// hexadecimal.
pub open spec fn escape_char(c: char) -> Seq<char> {
    if c == '\t' {
        seq!['\\', 't']
    } else if c == '\r' {
        seq!['\\', 'r']
    } else if c == '\n' {
        seq!['\\', 'n']
    } else if c == '\'' || c == '"' || c == '\\' {
        seq!['\\', c]
    } else if 0x20 <= (c as u32) <= 0x7e {
        seq![c]
    } else {
        seq!['\\', 'u', '{'] + spec_hex(c as nat, false) + seq!['}']
    }
}

/// A text with each character escaped as `char::escape_default` does.
pub open spec fn spec_escape_default(s: Seq<char>) -> Seq<char>
    decreases s.len(),
{
    if s.len() == 0 {
        seq![]
    } else {
        spec_escape_default(s.drop_last()) + escape_char(s.last())
    }
}

/// A text with each character escaped, as `str::escape_default` writes it.
pub(crate) fn escaped(s: &str) -> (r: String)
    ensures
        r@ == spec_escape_default(s@),
{
    let n = s.unicode_len();
    let mut r = String::new();
    let mut i: usize = 0;
    while i < n
        invariant
            n == s@.len(),
            i <= n,
            r@ == spec_escape_default(s@.subrange(0, i as int)),
        decreases n - i,
    {
        let c = s.get_char(i);
        let ghost before = r@;
        append_escaped_char(&mut r, c);
        let ghost next = s@.subrange(0, i + 1);
        assert(next.drop_last() =~= s@.subrange(0, i as int));
        assert(next.last() == c);
        i = i + 1;
    }
    assert(s@.subrange(0, n as int) =~= s@);
    r
}

/// Appends a character as `char::escape_default` writes it.
fn append_escaped_char(r: &mut String, c: char)
    ensures
        final(r)@ == old(r)@ + escape_char(c),
{
    proof {
        reveal_strlit("\\t");
        reveal_strlit("\\r");
        reveal_strlit("\\n");
        reveal_strlit("\\");
        reveal_strlit("\\u{");
        reveal_strlit("}");
    }
    if c == '\t' {
        r.append("\\t");
    } else if c == '\r' {
        r.append("\\r");
    } else if c == '\n' {
        r.append("\\n");
    } else if c == '\'' || c == '"' || c == '\\' {
        r.append("\\");
        let t = char_text(c);
        r.append(t.as_str());
    } else if 0x20 <= (c as u32) && (c as u32) <= 0x7e {
        let t = char_text(c);
        r.append(t.as_str());
    } else {
        r.append("\\u{");
        append_hex(r, c as u64, false);
        r.append("}");
    }
    assert(r@ =~= old(r)@ + escape_char(c));
}

/// A text in double quotes, escaped as `str::escape_default` does.
pub fn quoted_text(name: &str) -> (s: String)
    ensures
        s@ == "\""@ + spec_escape_default(name@) + "\""@,
{
    let mut s = String::from_str("\"");
    let e = escaped(name);
    s.append(e.as_str());
    s.append("\"");
    s
}

/// `char::to_string`: the one character as a `String`.
#[verifier::external_body]
pub(crate) fn char_text(c: char) -> (s: String)
    ensures
        s@ == seq![c],
{
    c.to_string()
}

/// Characters collected into a `String`.
pub(crate) fn string_from_chars(v: &Vec<char>) -> (s: String)
    ensures
        s@ == v@,
{
    let mut s = String::new();
    let mut i: usize = 0;
    while i < v.len()
        invariant
            i <= v@.len(),
            s@ == v@.subrange(0, i as int),
        decreases v@.len() - i,
    {
        let t = char_text(v[i]);
        s.append(t.as_str());
        assert(s@ =~= v@.subrange(0, i + 1));
        i = i + 1;
    }
    assert(v@.subrange(0, i as int) =~= v@);
    s
}

/// The text of one digit.
fn digit_text(d: u64, upper: bool) -> (s: &'static str)
    requires
        d < 16,
    ensures
        s@ == seq![hex_digit_char(d as nat, upper)],
{
    if d == 0 {
        proof { reveal_strlit("0"); }
        "0"
    } else     if d == 1 {
        proof { reveal_strlit("1"); }
        "1"
    } else     if d == 2 {
        proof { reveal_strlit("2"); }
        "2"
    } else     if d == 3 {
        proof { reveal_strlit("3"); }
        "3"
    } else     if d == 4 {
        proof { reveal_strlit("4"); }
        "4"
    } else     if d == 5 {
        proof { reveal_strlit("5"); }
        "5"
    } else     if d == 6 {
        proof { reveal_strlit("6"); }
        "6"
    } else     if d == 7 {
        proof { reveal_strlit("7"); }
        "7"
    } else     if d == 8 {
        proof { reveal_strlit("8"); }
        "8"
    } else     if d == 9 {
        proof { reveal_strlit("9"); }
        "9"
    } else     if d == 10 {
        if upper {
            proof { reveal_strlit("A"); }
            "A"
        } else {
            proof { reveal_strlit("a"); }
            "a"
        }
    } else     if d == 11 {
        if upper {
            proof { reveal_strlit("B"); }
            "B"
        } else {
            proof { reveal_strlit("b"); }
            "b"
        }
    } else     if d == 12 {
        if upper {
            proof { reveal_strlit("C"); }
            "C"
        } else {
            proof { reveal_strlit("c"); }
            "c"
        }
    } else     if d == 13 {
        if upper {
            proof { reveal_strlit("D"); }
            "D"
        } else {
            proof { reveal_strlit("d"); }
            "d"
        }
    } else     if d == 14 {
        if upper {
            proof { reveal_strlit("E"); }
            "E"
        } else {
            proof { reveal_strlit("e"); }
            "e"
        }
    } else     if d == 15 {
        if upper {
            proof { reveal_strlit("F"); }
            "F"
        } else {
            proof { reveal_strlit("f"); }
            "f"
        }
    } else {
        proof { assert(false); }
        "0"
    }
}

/// Appends the decimal notation of `n`.
pub fn append_decimal(s: &mut String, n: u64)
    ensures
        final(s)@ == old(s)@ + spec_decimal(n as nat),
    decreases n,
{
    if n >= 10 {
        append_decimal(s, n / 10);
    }
    let d = digit_text(n % 10, false);
    s.append(d);
}

/// Appends the hexadecimal notation of `n`, in upper or lower case.
pub fn append_hex(s: &mut String, n: u64, upper: bool)
    ensures
        final(s)@ == old(s)@ + spec_hex(n as nat, upper),
    decreases n,
{
    if n >= 16 {
        append_hex(s, n / 16, upper);
    }
    let d = digit_text(n % 16, upper);
    s.append(d);
}

/// The prefix followed by the decimal notation of `n`, as
/// `format!("{prefix}{n}")` writes it.
pub(crate) fn prefixed_decimal(prefix: &str, n: usize) -> (s: String)
    ensures
        s@ == prefix@ + spec_decimal(n as nat),
{
    let mut s = String::from_str(prefix);
    append_decimal(&mut s, n as u64);
    s
}

/// The prefix followed by the upper-case hexadecimal notation of `n`, as
/// `format!("{prefix}{n:X}")` writes it.
pub(crate) fn prefixed_upper_hex(prefix: &str, n: u32) -> (s: String)
    ensures
        s@ == prefix@ + spec_hex(n as nat, true),
{
    let mut s = String::from_str(prefix);
    append_hex(&mut s, n as u64, true);
    s
}

/// The prefix followed by the lower-case hexadecimal notation of `n`, as
/// `format!("{prefix}{n:x}")` writes it.
pub(crate) fn prefixed_lower_hex(prefix: &str, n: usize) -> (s: String)
    ensures
        s@ == prefix@ + spec_hex(n as nat, false),
{
    let mut s = String::from_str(prefix);
    append_hex(&mut s, n as u64, false);
    s
}

/// `n` spaces.
pub open spec fn spaces(n: int) -> Seq<char> {
    Seq::new(if n < 0 { 0 } else { n as nat }, |i: int| ' ')
}

/// A text padded with spaces on the left to `width` characters.
pub open spec fn pad_left(s: Seq<char>, width: int) -> Seq<char> {
    spaces(width - s.len()) + s
}

/// A text padded with spaces on the right to `width` characters.
pub open spec fn pad_right(s: Seq<char>, width: int) -> Seq<char> {
    s + spaces(width - s.len())
}

/// Appends `n` spaces.
pub fn push_spaces(s: &mut String, n: usize)
    ensures
        final(s)@ == old(s)@ + spaces(n as int),
{
    let mut i: usize = 0;
    while i < n
        invariant
            i <= n,
            s@ == old(s)@ + spaces(i as int),
        decreases n - i,
    {
        proof { reveal_strlit(" "); }
        s.append(" ");
        assert(s@ =~= old(s)@ + spaces((i + 1) as int));
        i = i + 1;
    }
}

/// A text padded with spaces on the right to `width` characters, as
/// `format!("{s:<width$}")` writes it.
pub fn left_aligned(t: &str, width: usize) -> (s: String)
    ensures
        s@ == pad_right(t@, width as int),
{
    let mut s = String::from_str(t);
    let len = t.unicode_len();
    if len < width {
        push_spaces(&mut s, width - len);
    }
    assert(s@ =~= pad_right(t@, width as int));
    s
}

/// The decimal notation of `n`, padded with spaces on the left to `width`
/// characters, as `format!("{n:>width$}")` writes it.
pub fn decimal_right_aligned(n: usize, width: usize) -> (s: String)
    ensures
        s@ == pad_left(spec_decimal(n as nat), width as int),
{
    let digits = prefixed_decimal("", n);
    proof { reveal_strlit(""); }
    let len = digits.as_str().unicode_len();
    let mut s = String::new();
    if len < width {
        push_spaces(&mut s, width - len);
    }
    s.append(digits.as_str());
    assert(s@ =~= pad_left(spec_decimal(n as nat), width as int));
    s
}

/// The decimal notation of `n`, padded with spaces on the right to `width`
/// characters, as `format!("{n:<width$}")` writes it.
pub fn decimal_left_aligned(n: usize, width: usize) -> (s: String)
    ensures
        s@ == pad_right(spec_decimal(n as nat), width as int),
{
    let mut s = prefixed_decimal("", n);
    proof { reveal_strlit(""); }
    let len = s.as_str().unicode_len();
    if len < width {
        push_spaces(&mut s, width - len);
    }
    assert(s@ =~= pad_right(spec_decimal(n as nat), width as int));
    s
}

/// Whether `char::is_whitespace` holds: the characters of Unicode's
/// `White_Space` property.
pub open spec fn is_white_space(c: char) -> bool {
    ||| '\t' <= c <= '\r'
    ||| c == ' '
    ||| c == '\u{85}'
    ||| c == '\u{A0}'
    ||| c == '\u{1680}'
    ||| '\u{2000}' <= c <= '\u{200A}'
    ||| c == '\u{2028}'
    ||| c == '\u{2029}'
    ||| c == '\u{202F}'
    ||| c == '\u{205F}'
    ||| c == '\u{3000}'
}

pub(crate) fn white_space(c: char) -> (b: bool)
    ensures
        b == is_white_space(c),
{
    ('\t' <= c && c <= '\r') || c == ' ' || c == '\u{85}' || c == '\u{A0}' || c == '\u{1680}'
        || ('\u{2000}' <= c && c <= '\u{200A}') || c == '\u{2028}' || c == '\u{2029}' || c == '\u{202F}'
        || c == '\u{205F}' || c == '\u{3000}'
}

/// The words of a text, as `str::split_whitespace` gives them: the maximal
/// runs of characters that are not white space, in order.
pub open spec fn words_of(s: Seq<char>) -> Seq<Seq<char>>
    decreases s.len(),
{
    if s.len() == 0 {
        seq![]
    } else {
        let init = words_of(s.drop_last());
        if is_white_space(s.last()) {
            init
        } else if s.len() >= 2 && !is_white_space(s[s.len() - 2]) {
            init.update(init.len() - 1, init.last().push(s.last()))
        } else {
            init.push(seq![s.last()])
        }
    }
}

/// The words of a text, each copied out, as `str::split_whitespace` gives
/// them.
pub fn split_words(line: &str) -> (words: Vec<String>)
    ensures
        words@.map_values(|w: String| w@) == words_of(line@),
{
    let n = line.unicode_len();
    let mut words: Vec<String> = Vec::new();
    let mut start: Option<usize> = None;
    let mut i: usize = 0;
    while i < n
        invariant
            n == line@.len(),
            i <= n,
            match start {
                Some(st) => st < i && !is_white_space(line@[i - 1])
                    && words_of(line@.subrange(0, i as int))
                        == words@.map_values(|w: String| w@).push(line@.subrange(st as int, i as int)),
                None => (i == 0 || is_white_space(line@[i - 1]))
                    && words_of(line@.subrange(0, i as int)) == words@.map_values(|w: String| w@),
            },
        decreases n - i,
    {
        let c = line.get_char(i);
        let ghost pre = line@.subrange(0, i as int);
        let ghost next = line@.subrange(0, i + 1);
        assert(next.drop_last() =~= pre);
        assert(next.last() == c);
        if white_space(c) {
            match start {
                Some(st) => {
                    let w = line.substring_char(st, i).to_owned();
                    let ghost before = words@.map_values(|w: String| w@);
                    words.push(w);
                    assert(words@.map_values(|w: String| w@) =~= before.push(line@.subrange(st as int, i as int)));
                },
                None => {},
            }
            start = None;
        } else {
            match start {
                Some(st) => {
                    assert(next[i - 1] == line@[i - 1]);
                    assert(line@.subrange(st as int, i + 1) =~= line@.subrange(st as int, i as int).push(c));
                    assert(words_of(next) =~= words@.map_values(|w: String| w@).push(line@.subrange(st as int, i + 1)));
                },
                None => {
                    if i > 0 {
                        assert(next[i - 1] == line@[i - 1]);
                    }
                    assert(line@.subrange(i as int, i + 1) =~= seq![c]);
                    start = Some(i);
                },
            }
        }
        i = i + 1;
    }
    assert(line@.subrange(0, n as int) =~= line@);
    match start {
        Some(st) => {
            let w = line.substring_char(st, n).to_owned();
            let ghost before = words@.map_values(|w: String| w@);
            words.push(w);
            assert(words@.map_values(|w: String| w@) =~= before.push(line@.subrange(st as int, n as int)));
        },
        None => {},
    }
    words
}


/// The value of a digit in `radix`, as `char::to_digit` gives it: `0` to
/// `9`, then the letters of either case from ten on.
pub open spec fn char_digit(c: char, radix: nat) -> Option<nat> {
    let v: int = if '0' <= c <= '9' {
        c as int - '0' as int
    } else if 'a' <= c <= 'z' {
        c as int - 'a' as int + 10
    } else if 'A' <= c <= 'Z' {
        c as int - 'A' as int + 10
    } else {
        radix as int
    };
    if v < radix { Some(v as nat) } else { None }
}

/// The value of a string of digits in `radix`.
pub open spec fn radix_value(s: Seq<char>, radix: nat) -> nat
    decreases s.len(),
{
    if s.len() == 0 {
        0
    } else {
        radix_value(s.drop_last(), radix) * radix + char_digit(s.last(), radix).unwrap_or(0)
    }
}

/// A number's digits: the text without a leading `+`.
pub open spec fn unsigned_body(s: Seq<char>) -> Seq<char> {
    if s.len() > 0 && s[0] == '+' { s.drop_first() } else { s }
}

/// Whether every character is a digit in `radix`.
pub open spec fn all_digits(s: Seq<char>, radix: nat) -> bool {
    forall|i: int| 0 <= i < s.len() ==> (#[trigger] char_digit(s[i], radix)) is Some
}

/// `u32::from_str_radix`: an optional `+`, then one or more digits in
/// `radix` whose value fits in 32 bits.
pub open spec fn spec_parse_radix_u32(s: Seq<char>, radix: nat) -> Option<u32> {
    let body = unsigned_body(s);
    if body.len() > 0 && all_digits(body, radix) && radix_value(body, radix) <= u32::MAX {
        Some(radix_value(body, radix) as u32)
    } else {
        None
    }
}

/// `u32::from_str`: decimal.
pub open spec fn spec_parse_u32(s: Seq<char>) -> Option<u32> {
    spec_parse_radix_u32(s, 10)
}

proof fn lemma_radix_value_grows(s: Seq<char>, radix: nat, i: int)
    requires
        radix >= 1,
        0 <= i <= s.len(),
    ensures
        radix_value(s.subrange(0, i), radix) <= radix_value(s, radix),
    decreases s.len() - i,
{
    if i < s.len() {
        let t = s.drop_last();
        assert(t.subrange(0, i) =~= s.subrange(0, i));
        lemma_radix_value_grows(t, radix, i);
        assert(radix_value(t, radix) * radix >= radix_value(t, radix)) by (nonlinear_arith)
            requires radix >= 1;
    } else {
        assert(s.subrange(0, i) =~= s);
    }
}

fn exec_char_digit(c: char, radix: u32) -> (r: Option<u32>)
    requires
        radix <= 36,
    ensures
        match char_digit(c, radix as nat) {
            Some(d) => r == Some(d as u32),
            None => r is None,
        },
{
    let v: u32 = if '0' <= c && c <= '9' {
        (c as u32) - ('0' as u32)
    } else if 'a' <= c && c <= 'z' {
        (c as u32) - ('a' as u32) + 10
    } else if 'A' <= c && c <= 'Z' {
        (c as u32) - ('A' as u32) + 10
    } else {
        radix
    };
    if v < radix { Some(v) } else { None }
}

/// Reads an unsigned 32-bit number in `radix`, as `u32::from_str_radix`
/// does.
pub fn parse_radix_u32(s: &str, radix: u32) -> (r: Option<u32>)
    requires
        2 <= radix <= 36,
    ensures
        r == spec_parse_radix_u32(s@, radix as nat),
{
    let n = s.unicode_len();
    let start: usize = if n > 0 && s.get_char(0) == '+' { 1 } else { 0 };
    let ghost body = unsigned_body(s@);
    assert(body =~= s@.subrange(start as int, n as int));
    if start == n {
        return None;
    }
    let mut v: u32 = 0;
    let mut i: usize = start;
    while i < n
        invariant
            n == s@.len(),
            start <= i <= n,
            2 <= radix <= 36,
            body == s@.subrange(start as int, n as int),
            body == unsigned_body(s@),
            v as nat == radix_value(body.subrange(0, i - start), radix as nat),
            forall|k: int| 0 <= k < i - start ==> (#[trigger] char_digit(body[k], radix as nat)) is Some,
        decreases n - i,
    {
        let ghost pre = body.subrange(0, i - start);
        let ghost next = body.subrange(0, i - start + 1);
        assert(next.drop_last() =~= pre);
        assert(next.last() == body[i - start]);
        let d = match exec_char_digit(s.get_char(i), radix) {
            Some(d) => d,
            None => {
                assert(char_digit(body[i - start], radix as nat) is None);
                return None;
            },
        };
        let m = v.checked_mul(radix);
        let w = match m {
            Some(m) => m.checked_add(d),
            None => None,
        };
        match w {
            Some(w) => {
                v = w;
            },
            None => {
                proof {
                    assert(radix_value(next, radix as nat) > u32::MAX) by (nonlinear_arith)
                        requires
                            radix_value(next, radix as nat) == radix_value(pre, radix as nat) * (radix as nat) + d,
                            v as nat == radix_value(pre, radix as nat),
                            (v as nat) * (radix as nat) + d > u32::MAX;
                    lemma_radix_value_grows(body, radix as nat, i - start + 1);
                }
                return None;
            },
        }
        i = i + 1;
    }
    assert(body.subrange(0, i - start) =~= body);
    Some(v)
}

/// Reads a decimal unsigned 32-bit number, as `str::parse::<u32>` does.
pub fn parse_u32(s: &str) -> (r: Option<u32>)
    ensures
        r == spec_parse_u32(s@),
{
    parse_radix_u32(s, 10)
}

} // verus!
