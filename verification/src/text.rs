//! Character-level building blocks of the wire format: string escaping,
//! decimal rendering, and (further down) scanning of wire text.

use vstd::prelude::*;
use vstd::string::*;

verus! {

// ---------------------------------------------------------------------------
// Character classes
// ---------------------------------------------------------------------------

/// Insignificant whitespace between the tokens of a wire record.
pub open spec fn is_ws_char(c: char) -> bool {
    c == ' ' || c == '\t' || c == '\n' || c == '\r'
}

/// A decimal digit.
pub open spec fn is_digit_char(c: char) -> bool {
    48 <= (c as u32) && (c as u32) <= 57
}

/// A character that may continue an unquoted scalar token (a number or a
/// literal such as `true`): anything that is not whitespace, not structural
/// punctuation, and not a quote.
pub open spec fn is_scalar_char(c: char) -> bool {
    !(is_ws_char(c) || c == ',' || c == ':' || c == '"' || c == '{' || c == '}' || c == '['
        || c == ']')
}

// ---------------------------------------------------------------------------
// String escaping
// ---------------------------------------------------------------------------

/// The character standing for the hexadecimal value `v` (lower case).
pub open spec fn hex_digit_char(v: nat) -> char {
    if v < 10 {
        (v + 48) as char
    } else {
        (v + 87) as char
    }
}

/// How one character of a field value appears inside a quoted wire string:
/// quotes and backslashes get a backslash, control characters become a
/// `\u00XX` sequence, everything else stands for itself.
pub open spec fn escape_char(c: char) -> Seq<char> {
    if c == '"' {
        seq!['\\', '"']
    } else if c == '\\' {
        seq!['\\', '\\']
    } else if (c as u32) < 32 {
        seq!['\\', 'u', '0', '0', hex_digit_char(((c as u32) / 16) as nat), hex_digit_char(
            ((c as u32) % 16) as nat,
        )]
    } else {
        seq![c]
    }
}

/// The body of the quoted wire string holding the field value `s`.
pub open spec fn escape_string(s: Seq<char>) -> Seq<char>
    decreases s.len(),
{
    if s.len() == 0 {
        Seq::empty()
    } else {
        escape_char(s[0]) + escape_string(s.drop_first())
    }
}

/// Escaping distributes over appending one character at the end.
pub proof fn lemma_escape_string_push(t: Seq<char>, c: char)
    ensures
        escape_string(t.push(c)) == escape_string(t) + escape_char(c),
    decreases t.len(),
{
    if t.len() == 0 {
        assert(t.push(c).drop_first() =~= Seq::<char>::empty());
        assert(escape_string(t) + escape_char(c) =~= escape_char(c));
        assert(escape_string(t.push(c)) =~= escape_char(c) + escape_string(Seq::empty()));
        assert(escape_char(c) + escape_string(Seq::<char>::empty()) =~= escape_char(c));
    } else {
        assert(t.push(c).drop_first() =~= t.drop_first().push(c));
        lemma_escape_string_push(t.drop_first(), c);
        assert(escape_char(t[0]) + (escape_string(t.drop_first()) + escape_char(c)) =~= (
        escape_char(t[0]) + escape_string(t.drop_first())) + escape_char(c));
    }
}

/// The character standing for the hexadecimal value `v`.
pub fn hex_digit(v: u8) -> (c: char)
    requires
        v < 16,
    ensures
        c == hex_digit_char(v as nat),
{
    if v < 10 {
        (v + 48) as char
    } else {
        (v + 87) as char
    }
}

/// Appends the escaped form of `s` to `out`.
pub fn push_escaped(out: &mut Vec<char>, s: &str)
    ensures
        final(out)@ == old(out)@ + escape_string(s@),
{
    let n = s.unicode_len();
    let mut j: usize = 0;
    while j < n
        invariant
            j <= n,
            n == s@.len(),
            out@ == old(out)@ + escape_string(s@.subrange(0, j as int)),
        decreases n - j,
    {
        let c = s.get_char(j);
        if c == '"' {
            out.push('\\');
            out.push('"');
        } else if c == '\\' {
            out.push('\\');
            out.push('\\');
        } else if (c as u32) < 32 {
            let code = c as u32;
            out.push('\\');
            out.push('u');
            out.push('0');
            out.push('0');
            out.push(hex_digit((code / 16) as u8));
            out.push(hex_digit((code % 16) as u8));
        } else {
            out.push(c);
        }
        proof {
            assert(s@.subrange(0, j as int + 1) =~= s@.subrange(0, j as int).push(s@[j as int]));
            lemma_escape_string_push(s@.subrange(0, j as int), s@[j as int]);
            assert(out@ =~= old(out)@ + escape_string(s@.subrange(0, j as int + 1)));
        }
        j += 1;
    }
    proof {
        assert(s@.subrange(0, n as int) =~= s@);
    }
}

// ---------------------------------------------------------------------------
// Decimal rendering
// ---------------------------------------------------------------------------

/// The character standing for the decimal digit `d`.
pub open spec fn dec_digit_char(d: nat) -> char {
    (d + 48) as char
}

/// The decimal numeral of `n`, most significant digit first and without
/// leading zeros.
pub open spec fn dec_rep(n: nat) -> Seq<char>
    decreases n,
{
    if n < 10 {
        seq![dec_digit_char(n)]
    } else {
        dec_rep(n / 10).push(dec_digit_char(n % 10))
    }
}

/// The character standing for the decimal digit `d`.
pub fn dec_digit(d: u8) -> (c: char)
    requires
        d < 10,
    ensures
        c == dec_digit_char(d as nat),
{
    (d + 48) as char
}

/// Appends the decimal numeral of `n` to `out`.
pub fn push_dec(out: &mut Vec<char>, n: usize)
    ensures
        final(out)@ == old(out)@ + dec_rep(n as nat),
    decreases n,
{
    if n < 10 {
        out.push(dec_digit(n as u8));
        proof {
            assert(out@ =~= old(out)@ + dec_rep(n as nat));
        }
    } else {
        push_dec(out, n / 10);
        out.push(dec_digit((n % 10) as u8));
        proof {
            assert(out@ =~= old(out)@ + dec_rep(n as nat));
        }
    }
}

// ---------------------------------------------------------------------------
// Between characters and strings
// ---------------------------------------------------------------------------

/// Appends every character of `s` to `out`.
pub fn push_str_chars(out: &mut Vec<char>, s: &str)
    ensures
        final(out)@ == old(out)@ + s@,
{
    let n = s.unicode_len();
    let mut j: usize = 0;
    while j < n
        invariant
            j <= n,
            n == s@.len(),
            out@ == old(out)@ + s@.subrange(0, j as int),
        decreases n - j,
    {
        out.push(s.get_char(j));
        proof {
            assert(out@ =~= old(out)@ + s@.subrange(0, j as int + 1));
        }
        j += 1;
    }
    proof {
        assert(s@.subrange(0, n as int) =~= s@);
    }
}

/// The characters of `s`, in order.
pub fn str_chars(s: &str) -> (r: Vec<char>)
    ensures
        r@ == s@,
{
    let mut r: Vec<char> = Vec::new();
    push_str_chars(&mut r, s);
    r
}

/// Relies on `String`'s `FromIterator<char>` implementation: collecting
/// characters yields the string of exactly those characters in order.
#[verifier::external_body]
pub fn chars_to_string(v: &Vec<char>) -> (r: String)
    ensures
        r@ == v@,
{
    v.iter().collect()
}

// ---------------------------------------------------------------------------
// Scanning wire text
// ---------------------------------------------------------------------------

/// The first position at or after `i` holding a non-whitespace character
/// (or the end of the text).
pub open spec fn skip_ws(s: Seq<char>, i: int) -> int
    decreases s.len() - i,
    when 0 <= i <= s.len()
{
    if i == s.len() {
        i
    } else if is_ws_char(s[i]) {
        skip_ws(s, i + 1)
    } else {
        i
    }
}

pub proof fn lemma_skip_ws_bounds(s: Seq<char>, i: int)
    requires
        0 <= i <= s.len(),
    ensures
        i <= skip_ws(s, i) <= s.len(),
        skip_ws(s, i) < s.len() ==> !is_ws_char(s[skip_ws(s, i)]),
    decreases s.len() - i,
{
    if i < s.len() && is_ws_char(s[i]) {
        lemma_skip_ws_bounds(s, i + 1);
    }
}

/// Position just past the closing quote of a quoted token whose opening
/// quote stands just before `i`. A backslash makes the next character
/// insignificant; `None` when the text ends before the token closes.
pub open spec fn scan_string(s: Seq<char>, i: int) -> Option<int>
    decreases s.len() - i,
    when 0 <= i <= s.len()
{
    if i == s.len() {
        None
    } else if s[i] == '"' {
        Some(i + 1)
    } else if s[i] == '\\' {
        if i + 2 <= s.len() {
            scan_string(s, i + 2)
        } else {
            None
        }
    } else {
        scan_string(s, i + 1)
    }
}

pub proof fn lemma_scan_string_bounds(s: Seq<char>, i: int)
    requires
        0 <= i <= s.len(),
    ensures
        scan_string(s, i) matches Some(j) ==> i < j <= s.len(),
    decreases s.len() - i,
{
    if i < s.len() {
        if s[i] == '\\' {
            if i + 2 <= s.len() {
                lemma_scan_string_bounds(s, i + 2);
            }
        } else if s[i] != '"' {
            lemma_scan_string_bounds(s, i + 1);
        }
    }
}

/// Position just past the bracket that closes a container whose opening
/// bracket stands just before `i`, with `depth` containers currently open.
/// Quoted tokens inside the container are skipped over; `None` when the
/// text ends first.
pub open spec fn scan_nested(s: Seq<char>, i: int, depth: nat, in_str: bool) -> Option<int>
    decreases s.len() - i,
    when 0 <= i <= s.len() && depth >= 1
{
    if i == s.len() {
        None
    } else if in_str {
        if s[i] == '\\' {
            if i + 2 <= s.len() {
                scan_nested(s, i + 2, depth, true)
            } else {
                None
            }
        } else if s[i] == '"' {
            scan_nested(s, i + 1, depth, false)
        } else {
            scan_nested(s, i + 1, depth, true)
        }
    } else if s[i] == '"' {
        scan_nested(s, i + 1, depth, true)
    } else if s[i] == '{' || s[i] == '[' {
        scan_nested(s, i + 1, depth + 1, false)
    } else if s[i] == '}' || s[i] == ']' {
        if depth == 1 {
            Some(i + 1)
        } else {
            scan_nested(s, i + 1, (depth - 1) as nat, false)
        }
    } else {
        scan_nested(s, i + 1, depth, false)
    }
}

pub proof fn lemma_scan_nested_bounds(s: Seq<char>, i: int, depth: nat, in_str: bool)
    requires
        0 <= i <= s.len(),
        depth >= 1,
    ensures
        scan_nested(s, i, depth, in_str) matches Some(j) ==> i < j <= s.len(),
    decreases s.len() - i,
{
    if i < s.len() {
        if in_str {
            if s[i] == '\\' {
                if i + 2 <= s.len() {
                    lemma_scan_nested_bounds(s, i + 2, depth, true);
                }
            } else if s[i] == '"' {
                lemma_scan_nested_bounds(s, i + 1, depth, false);
            } else {
                lemma_scan_nested_bounds(s, i + 1, depth, true);
            }
        } else if s[i] == '"' {
            lemma_scan_nested_bounds(s, i + 1, depth, true);
        } else if s[i] == '{' || s[i] == '[' {
            lemma_scan_nested_bounds(s, i + 1, depth + 1, false);
        } else if s[i] == '}' || s[i] == ']' {
            if depth > 1 {
                lemma_scan_nested_bounds(s, i + 1, (depth - 1) as nat, false);
            }
        } else {
            lemma_scan_nested_bounds(s, i + 1, depth, false);
        }
    }
}

/// End of the run of scalar characters starting at `i`.
pub open spec fn scan_scalar(s: Seq<char>, i: int) -> int
    decreases s.len() - i,
    when 0 <= i <= s.len()
{
    if i == s.len() {
        i
    } else if is_scalar_char(s[i]) {
        scan_scalar(s, i + 1)
    } else {
        i
    }
}

pub proof fn lemma_scan_scalar_bounds(s: Seq<char>, i: int)
    requires
        0 <= i <= s.len(),
    ensures
        i <= scan_scalar(s, i) <= s.len(),
        scan_scalar(s, i) < s.len() ==> !is_scalar_char(s[scan_scalar(s, i)]),
    decreases s.len() - i,
{
    if i < s.len() && is_scalar_char(s[i]) {
        lemma_scan_scalar_bounds(s, i + 1);
    }
}

/// Position just past the single value token starting at `i`: a quoted
/// token, a bracketed container, or a run of scalar characters. `None`
/// when no value can start at `i` or the text ends inside the token.
pub open spec fn scan_value(s: Seq<char>, i: int) -> Option<int> {
    if !(0 <= i < s.len()) {
        None
    } else if s[i] == '"' {
        scan_string(s, i + 1)
    } else if s[i] == '{' || s[i] == '[' {
        scan_nested(s, i + 1, 1, false)
    } else if is_scalar_char(s[i]) {
        Some(scan_scalar(s, i + 1))
    } else {
        None
    }
}

pub proof fn lemma_scan_value_bounds(s: Seq<char>, i: int)
    requires
        0 <= i <= s.len(),
    ensures
        scan_value(s, i) matches Some(j) ==> i < j <= s.len(),
{
    if i < s.len() {
        lemma_scan_string_bounds(s, i + 1);
        lemma_scan_nested_bounds(s, i + 1, 1, false);
        lemma_scan_scalar_bounds(s, i + 1);
    }
}

/// A non-empty text that is exactly one value token.
pub open spec fn is_value_token(s: Seq<char>) -> bool {
    s.len() > 0 && scan_value(s, 0) == Some(s.len() as int)
}

/// Whitespace is not significant: `skip_ws`, executably.
#[verifier::loop_isolation(false)]
pub fn skip_ws_at(s: &Vec<char>, i: usize) -> (r: usize)
    requires
        i <= s@.len(),
    ensures
        r as int == skip_ws(s@, i as int),
        i <= r <= s@.len(),
        r < s@.len() ==> !is_ws_char(s@[r as int]),
{
    let n = s.len();
    let mut j = i;
    while j < n && (s[j] == ' ' || s[j] == '\t' || s[j] == '\n' || s[j] == '\r')
        invariant
            i <= j <= n,
            n == s@.len(),
            skip_ws(s@, i as int) == skip_ws(s@, j as int),
        decreases n - j,
    {
        j += 1;
    }
    j
}

/// `scan_value`, executably.
#[verifier::loop_isolation(false)]
pub fn scan_value_at(s: &Vec<char>, i: usize) -> (r: Option<usize>)
    requires
        i <= s@.len(),
    ensures
        r matches Some(j) ==> scan_value(s@, i as int) == Some(j as int) && i < j && j <= s@.len(),
        r is None ==> scan_value(s@, i as int) is None,
{
    let n = s.len();
    if i >= n {
        return None;
    }
    let c = s[i];
    if c == '"' {
        let mut j = i + 1;
        loop
            invariant
                i + 1 <= j <= n,
                n == s@.len(),
                scan_string(s@, i as int + 1) == scan_string(s@, j as int),
            decreases n - j,
        {
            if j == n {
                proof {
                    assert(scan_string(s@, j as int) is None);
                }
                return None;
            }
            let d = s[j];
            if d == '"' {
                return Some(j + 1);
            } else if d == '\\' {
                if n - j >= 2 {
                    j += 2;
                } else {
                    proof {
                        assert(scan_string(s@, j as int) is None);
                    }
                    return None;
                }
            } else {
                j += 1;
            }
        }
    } else if c == '{' || c == '[' {
        let mut j = i + 1;
        let mut depth: usize = 1;
        let mut in_str = false;
        loop
            invariant
                i + 1 <= j <= n,
                n == s@.len(),
                1 <= depth,
                depth as int <= j - i,
                scan_nested(s@, i as int + 1, 1nat, false) == scan_nested(
                    s@,
                    j as int,
                    depth as nat,
                    in_str,
                ),
            decreases n - j,
        {
            if j == n {
                proof {
                    assert(scan_nested(s@, j as int, depth as nat, in_str) is None);
                }
                return None;
            }
            let d = s[j];
            if in_str {
                if d == '\\' {
                    if n - j >= 2 {
                        j += 2;
                    } else {
                        proof {
                            assert(scan_nested(s@, j as int, depth as nat, in_str) is None);
                        }
                        return None;
                    }
                } else {
                    if d == '"' {
                        in_str = false;
                    }
                    j += 1;
                }
            } else if d == '"' {
                in_str = true;
                j += 1;
            } else if d == '{' || d == '[' {
                depth += 1;
                j += 1;
            } else if d == '}' || d == ']' {
                if depth == 1 {
                    return Some(j + 1);
                }
                depth -= 1;
                j += 1;
            } else {
                j += 1;
            }
        }
    } else if !(c == ' ' || c == '\t' || c == '\n' || c == '\r' || c == ',' || c == ':' || c == '}'
        || c == ']') {
        let mut j = i + 1;
        loop
            invariant
                i + 1 <= j <= n,
                n == s@.len(),
                scan_scalar(s@, i as int + 1) == scan_scalar(s@, j as int),
            decreases n - j,
        {
            if j == n {
                return Some(j);
            }
            let d = s[j];
            if d == ' ' || d == '\t' || d == '\n' || d == '\r' || d == ',' || d == ':' || d == '"'
                || d == '{' || d == '}' || d == '[' || d == ']' {
                return Some(j);
            }
            j += 1;
        }
    } else {
        None
    }
}

} // verus!

verus! {

// ---------------------------------------------------------------------------
// Quoted tokens: reading a field value back out of the wire text
// ---------------------------------------------------------------------------

/// A hexadecimal digit (either case).
pub open spec fn is_hex_char(c: char) -> bool {
    is_digit_char(c) || (97 <= (c as u32) && (c as u32) <= 102) || (65 <= (c as u32) && (c as u32)
        <= 70)
}

/// The value of a hexadecimal digit.
pub open spec fn hex_char_val(c: char) -> int {
    if is_digit_char(c) {
        (c as u32) - 48
    } else if 97 <= (c as u32) {
        (c as u32) - 87
    } else {
        (c as u32) - 55
    }
}

/// The character a single-letter escape stands for, if the letter is one.
pub open spec fn named_escape_char(c: char) -> Option<char> {
    if c == '"' {
        Some('"')
    } else if c == '\\' {
        Some('\\')
    } else if c == '/' {
        Some('/')
    } else if c == 'n' {
        Some('\n')
    } else if c == 't' {
        Some('\t')
    } else if c == 'r' {
        Some('\r')
    } else if c == 'b' {
        Some('\u{8}')
    } else if c == 'f' {
        Some('\u{c}')
    } else {
        None
    }
}

/// Four hexadecimal digits stand at `i`.
pub open spec fn is_hex4(s: Seq<char>, i: int) -> bool {
    0 <= i && i + 4 <= s.len() && is_hex_char(s[i]) && is_hex_char(s[i + 1]) && is_hex_char(
        s[i + 2],
    ) && is_hex_char(s[i + 3])
}

/// The value of the four hexadecimal digits at `i`.
pub open spec fn hex4_val(s: Seq<char>, i: int) -> int {
    hex_char_val(s[i]) * 4096 + hex_char_val(s[i + 1]) * 256 + hex_char_val(s[i + 2]) * 16
        + hex_char_val(s[i + 3])
}

/// Prefixes a parsed tail with one decoded character.
pub open spec fn cons_parsed(c: char, r: Option<(Seq<char>, int)>) -> Option<(Seq<char>, int)> {
    match r {
        Some((t, j)) => Some((seq![c] + t, j)),
        None => None,
    }
}

/// Prefixes a parsed tail with already decoded characters.
pub open spec fn prepend_parsed(p: Seq<char>, r: Option<(Seq<char>, int)>) -> Option<
    (Seq<char>, int),
> {
    match r {
        Some((t, j)) => Some((p + t, j)),
        None => None,
    }
}

pub proof fn lemma_prepend_cons(p: Seq<char>, c: char, r: Option<(Seq<char>, int)>)
    ensures
        prepend_parsed(p, cons_parsed(c, r)) == prepend_parsed(p.push(c), r),
{
    match r {
        Some((t, j)) => {
            assert(p + (seq![c] + t) =~= p.push(c) + t);
        },
        None => {},
    }
}

/// The decoded content of a quoted token whose opening quote stands just
/// before `i`, together with the position just past its closing quote.
/// Escapes are decoded; a `\uXXXX` escape naming a surrogate code is
/// refused (the wire format this library emits never needs one).
pub open spec fn parse_string_body(s: Seq<char>, i: int) -> Option<(Seq<char>, int)>
    decreases s.len() - i,
    when 0 <= i <= s.len()
{
    if i == s.len() {
        None
    } else if s[i] == '"' {
        Some((Seq::empty(), i + 1))
    } else if s[i] == '\\' {
        if i + 1 == s.len() {
            None
        } else if named_escape_char(s[i + 1]) is Some {
            cons_parsed(named_escape_char(s[i + 1])->0, parse_string_body(s, i + 2))
        } else if s[i + 1] == 'u' {
            if is_hex4(s, i + 2) {
                if 0xD800 <= hex4_val(s, i + 2) < 0xE000 {
                    None
                } else {
                    cons_parsed((hex4_val(s, i + 2)) as char, parse_string_body(s, i + 6))
                }
            } else {
                None
            }
        } else {
            None
        }
    } else {
        cons_parsed(s[i], parse_string_body(s, i + 1))
    }
}

pub proof fn lemma_parse_string_body_bounds(s: Seq<char>, i: int)
    requires
        0 <= i <= s.len(),
    ensures
        parse_string_body(s, i) matches Some(r) ==> i < r.1 <= s.len(),
    decreases s.len() - i,
{
    if i < s.len() {
        if s[i] == '\\' {
            if i + 1 < s.len() {
                if named_escape_char(s[i + 1]) is Some {
                    lemma_parse_string_body_bounds(s, i + 2);
                } else if s[i + 1] == 'u' && is_hex4(s, i + 2) {
                    lemma_parse_string_body_bounds(s, i + 6);
                }
            }
        } else if s[i] != '"' {
            lemma_parse_string_body_bounds(s, i + 1);
        }
    }
}

/// Relies on `char::from_u32`: the result is the character with code point
/// `v`, and it is `None` exactly when `v` is a surrogate code or lies above
/// the greatest code point.
#[verifier::external_body]
pub fn char_from_u32(v: u32) -> (r: Option<char>)
    ensures
        r matches Some(c) ==> c == v as char && c as u32 == v,
        (r is None) == (0xD800 <= v && v < 0xE000 || 0x10FFFF < v),
{
    char::from_u32(v)
}

/// The single-letter escapes, executably.
pub fn named_escape(c: char) -> (r: Option<char>)
    ensures
        r == named_escape_char(c),
{
    if c == '"' {
        Some('"')
    } else if c == '\\' {
        Some('\\')
    } else if c == '/' {
        Some('/')
    } else if c == 'n' {
        Some('\n')
    } else if c == 't' {
        Some('\t')
    } else if c == 'r' {
        Some('\r')
    } else if c == 'b' {
        Some('\u{8}')
    } else if c == 'f' {
        Some('\u{c}')
    } else {
        None
    }
}

/// The value of a hexadecimal digit, executably; `None` when `c` is not one.
pub fn hex_val(c: char) -> (r: Option<u32>)
    ensures
        r matches Some(v) ==> is_hex_char(c) && v == hex_char_val(c) && v < 16,
        r is None ==> !is_hex_char(c),
{
    let u = c as u32;
    if 48 <= u && u <= 57 {
        Some(u - 48)
    } else if 97 <= u && u <= 102 {
        Some(u - 87)
    } else if 65 <= u && u <= 70 {
        Some(u - 55)
    } else {
        None
    }
}

/// `parse_string_body`, executably: the decoded characters and the position
/// just past the closing quote.
#[verifier::loop_isolation(false)]
pub fn parse_string_at(s: &Vec<char>, i: usize) -> (r: Option<(Vec<char>, usize)>)
    requires
        i <= s@.len(),
    ensures
        r matches Some(p) ==> parse_string_body(s@, i as int) == Some((p.0@, p.1 as int)) && i
            < p.1 <= s@.len(),
        r is None ==> parse_string_body(s@, i as int) is None,
{
    let n = s.len();
    let mut acc: Vec<char> = Vec::new();
    let mut j = i;
    loop
        invariant
            i <= j <= n,
            parse_string_body(s@, i as int) == prepend_parsed(acc@, parse_string_body(s@, j as int)),
        decreases n - j,
    {
        if j == n {
            return None;
        }
        let c = s[j];
        if c == '"' {
            proof {
                assert(acc@ + Seq::<char>::empty() =~= acc@);
            }
            return Some((acc, j + 1));
        } else if c == '\\' {
            if n - j < 2 {
                return None;
            }
            let e = s[j + 1];
            match named_escape(e) {
                Some(d) => {
                    proof {
                        lemma_prepend_cons(acc@, d, parse_string_body(s@, j as int + 2));
                    }
                    acc.push(d);
                    j += 2;
                },
                None => {
                    if e != 'u' {
                        return None;
                    }
                    if n - j < 6 {
                        return None;
                    }
                    let h0 = hex_val(s[j + 2]);
                    let h1 = hex_val(s[j + 3]);
                    let h2 = hex_val(s[j + 4]);
                    let h3 = hex_val(s[j + 5]);
                    match (h0, h1, h2, h3) {
                        (Some(v0), Some(v1), Some(v2), Some(v3)) => {
                            let v = v0 * 4096 + v1 * 256 + v2 * 16 + v3;
                            if 0xD800 <= v && v < 0xE000 {
                                return None;
                            }
                            let d = match char_from_u32(v) {
                                Some(d) => d,
                                None => {
                                    return None;  // unreachable: v is below 0x10000
                                },
                            };
                            proof {
                                lemma_prepend_cons(acc@, d, parse_string_body(s@, j as int + 6));
                            }
                            acc.push(d);
                            j += 6;
                        },
                        _ => {
                            return None;
                        },
                    }
                },
            }
        } else {
            proof {
                lemma_prepend_cons(acc@, c, parse_string_body(s@, j as int + 1));
            }
            acc.push(c);
            j += 1;
        }
    }
}

} // verus!

verus! {

// ---------------------------------------------------------------------------
// Decimal numerals: reading a status code back out of the wire text
// ---------------------------------------------------------------------------

/// End of the run of decimal digits starting at `i`.
pub open spec fn scan_digits(s: Seq<char>, i: int) -> int
    decreases s.len() - i,
    when 0 <= i <= s.len()
{
    if i == s.len() {
        i
    } else if is_digit_char(s[i]) {
        scan_digits(s, i + 1)
    } else {
        i
    }
}

pub proof fn lemma_scan_digits_range(s: Seq<char>, i: int)
    requires
        0 <= i <= s.len(),
    ensures
        i <= scan_digits(s, i) <= s.len(),
        forall|k: int| i <= k < scan_digits(s, i) ==> is_digit_char(s[k]),
        scan_digits(s, i) < s.len() ==> !is_digit_char(s[scan_digits(s, i)]),
    decreases s.len() - i,
{
    if i < s.len() && is_digit_char(s[i]) {
        lemma_scan_digits_range(s, i + 1);
    }
}

/// The number the digit run `s[i .. j)` denotes.
pub open spec fn digits_value(s: Seq<char>, i: int, j: int) -> int
    decreases j - i,
    when i <= j
{
    if j <= i {
        0
    } else {
        digits_value(s, i, j - 1) * 10 + ((s[j - 1] as u32) - 48)
    }
}

/// Ten to the `k`.
pub open spec fn pow10(k: nat) -> int
    decreases k,
{
    if k == 0 {
        1
    } else {
        10 * pow10((k - 1) as nat)
    }
}

pub proof fn lemma_pow10_mono(a: nat, b: nat)
    requires
        a <= b,
    ensures
        0 < pow10(a) <= pow10(b),
    decreases b,
{
    if b > 0 {
        if a == b {
            lemma_pow10_mono((a - 1) as nat, (b - 1) as nat);
        } else {
            lemma_pow10_mono(a, (b - 1) as nat);
        }
    }
}

/// A run of `j - i` digits denotes fewer than ten to the `j - i`.
pub proof fn lemma_digits_value_bound(s: Seq<char>, i: int, j: int)
    requires
        0 <= i <= j <= s.len(),
        forall|k: int| i <= k < j ==> is_digit_char(s[k]),
    ensures
        0 <= digits_value(s, i, j) < pow10((j - i) as nat),
    decreases j - i,
{
    if j > i {
        lemma_digits_value_bound(s, i, j - 1);
        assert(digits_value(s, i, j - 1) * 10 <= (pow10((j - i - 1) as nat) - 1) * 10) by {
            lemma_mul_le(digits_value(s, i, j - 1), pow10((j - i - 1) as nat) - 1, 10);
        }
    }
}

/// Multiplying both sides of an inequality by a non-negative number.
pub proof fn lemma_mul_le(a: int, b: int, c: int)
    requires
        a <= b,
        c >= 0,
    ensures
        a * c <= b * c,
{
    assert(a * c <= b * c) by (nonlinear_arith)
        requires
            a <= b,
            c >= 0,
    ;
}

pub proof fn lemma_pow10_20()
    ensures
        pow10(20) == 100000000000000000000,
{
    reveal_with_fuel(pow10, 21);
}

/// `scan_digits`, executably.
#[verifier::loop_isolation(false)]
pub fn scan_digits_at(s: &Vec<char>, i: usize) -> (r: usize)
    requires
        i <= s@.len(),
    ensures
        r as int == scan_digits(s@, i as int),
        i <= r <= s@.len(),
{
    let n = s.len();
    let mut j = i;
    loop
        invariant
            i <= j <= n,
            scan_digits(s@, i as int) == scan_digits(s@, j as int),
        decreases n - j,
    {
        if j == n {
            return j;
        }
        let u = s[j] as u32;
        if 48 <= u && u <= 57 {
            j += 1;
        } else {
            return j;
        }
    }
}

/// The number denoted by the digit run `s[i .. j)`, or `None` when it does
/// not fit the status code's machine word.
#[verifier::loop_isolation(false)]
pub fn digits_value_at(s: &Vec<char>, i: usize, j: usize) -> (r: Option<usize>)
    requires
        i <= j <= s@.len(),
        j - i <= 20,
        forall|k: int| i <= k < j ==> is_digit_char(s@[k]),
    ensures
        r matches Some(v) ==> v as int == digits_value(s@, i as int, j as int),
        r is None ==> digits_value(s@, i as int, j as int) > usize::MAX,
{
    let mut acc: u128 = 0;
    let mut k = i;
    proof {
        lemma_pow10_20();
    }
    while k < j
        invariant
            i <= k <= j,
            acc as int == digits_value(s@, i as int, k as int),
            (acc as int) < pow10((k - i) as nat),
        decreases j - k,
    {
        proof {
            lemma_digits_value_bound(s@, i as int, k as int + 1);
            lemma_pow10_mono(((k + 1) - i) as nat, 20);
        }
        let d = s[k] as u32 - 48;
        acc = acc * 10 + (d as u128);
        k += 1;
    }
    proof {
        lemma_pow10_mono(((j - i)) as nat, 20);
    }
    if acc > (usize::MAX as u128) {
        None
    } else {
        Some(acc as usize)
    }
}

} // verus!

verus! {

/// A copy of `s[i .. j)`.
#[verifier::loop_isolation(false)]
pub fn vec_subrange(s: &Vec<char>, i: usize, j: usize) -> (r: Vec<char>)
    requires
        i <= j <= s@.len(),
    ensures
        r@ == s@.subrange(i as int, j as int),
{
    let mut r: Vec<char> = Vec::new();
    let mut k = i;
    while k < j
        invariant
            i <= k <= j,
            r@ == s@.subrange(i as int, k as int),
        decreases j - k,
    {
        r.push(s[k]);
        proof {
            assert(r@ =~= s@.subrange(i as int, k as int + 1));
        }
        k += 1;
    }
    r
}

} // verus!

verus! {

/// The scan of a quoted token depends only on the token's own characters:
/// inside a larger text it ends where it ends on its own.
proof fn lemma_scan_string_local(t: Seq<char>, s: Seq<char>, off: int, j: int)
    requires
        0 <= off,
        off + t.len() <= s.len(),
        s.subrange(off, off + t.len() as int) == t,
        0 <= j <= t.len(),
        scan_string(t, j) matches Some(e) && e <= t.len(),
    ensures
        scan_string(s, off + j) == Some(off + scan_string(t, j)->0),
    decreases t.len() - j,
{
    assert(s.subrange(off, off + t.len() as int)[j] == t[j]) by {
        assert(j < t.len()) by {
            if j == t.len() {
                assert(scan_string(t, j) is None);
            }
        }
    }
    assert(s[off + j] == t[j]);
    if t[j] == '"' {
    } else if t[j] == '\\' {
        if j + 2 <= t.len() {
            lemma_scan_string_local(t, s, off, j + 2);
        } else {
            assert(scan_string(t, j) is None);
        }
    } else {
        lemma_scan_string_local(t, s, off, j + 1);
    }
}

/// The scan of a bracketed container depends only on its own characters.
proof fn lemma_scan_nested_local(
    t: Seq<char>,
    s: Seq<char>,
    off: int,
    j: int,
    depth: nat,
    in_str: bool,
)
    requires
        0 <= off,
        off + t.len() <= s.len(),
        s.subrange(off, off + t.len() as int) == t,
        0 <= j <= t.len(),
        depth >= 1,
        scan_nested(t, j, depth, in_str) matches Some(e) && e <= t.len(),
    ensures
        scan_nested(s, off + j, depth, in_str) == Some(off + scan_nested(t, j, depth, in_str)->0),
    decreases t.len() - j,
{
    assert(s.subrange(off, off + t.len() as int)[j] == t[j]) by {
        assert(j < t.len()) by {
            if j == t.len() {
                assert(scan_nested(t, j, depth, in_str) is None);
            }
        }
    }
    assert(s[off + j] == t[j]);
    if in_str {
        if t[j] == '\\' {
            if j + 2 <= t.len() {
                lemma_scan_nested_local(t, s, off, j + 2, depth, true);
            } else {
                assert(scan_nested(t, j, depth, in_str) is None);
            }
        } else if t[j] == '"' {
            lemma_scan_nested_local(t, s, off, j + 1, depth, false);
        } else {
            lemma_scan_nested_local(t, s, off, j + 1, depth, true);
        }
    } else if t[j] == '"' {
        lemma_scan_nested_local(t, s, off, j + 1, depth, true);
    } else if t[j] == '{' || t[j] == '[' {
        lemma_scan_nested_local(t, s, off, j + 1, depth + 1, false);
    } else if t[j] == '}' || t[j] == ']' {
        if depth > 1 {
            lemma_scan_nested_local(t, s, off, j + 1, (depth - 1) as nat, false);
        }
    } else {
        lemma_scan_nested_local(t, s, off, j + 1, depth, false);
    }
}

/// A scalar run that reaches the token's end keeps that end inside a larger
/// text whose next character cannot continue the run.
proof fn lemma_scan_scalar_local(t: Seq<char>, s: Seq<char>, off: int, j: int)
    requires
        0 <= off,
        off + t.len() <= s.len(),
        s.subrange(off, off + t.len() as int) == t,
        0 <= j <= t.len(),
        scan_scalar(t, j) == t.len(),
        off + t.len() == s.len() || !is_scalar_char(s[off + t.len()]),
    ensures
        scan_scalar(s, off + j) == off + t.len(),
    decreases t.len() - j,
{
    if j < t.len() {
        assert(s.subrange(off, off + t.len() as int)[j] == t[j]);
        assert(s[off + j] == t[j]);
        assert(is_scalar_char(t[j])) by {
            if !is_scalar_char(t[j]) {
                assert(scan_scalar(t, j) == j);
            }
        }
        lemma_scan_scalar_local(t, s, off, j + 1);
    }
}

/// Splicing: a well-framed value token inside a larger text scans to
/// exactly its own end, provided the character after it (if any) cannot
/// extend a scalar run. The separators of a record, a comma or a closing
/// brace, cannot.
pub proof fn lemma_scan_value_splice(t: Seq<char>, s: Seq<char>, off: int)
    requires
        0 <= off,
        off + t.len() <= s.len(),
        s.subrange(off, off + t.len() as int) == t,
        is_value_token(t),
        off + t.len() == s.len() || !is_scalar_char(s[off + t.len()]),
    ensures
        scan_value(s, off) == Some(off + t.len()),
{
    assert(s.subrange(off, off + t.len() as int)[0] == t[0]);
    assert(s[off] == t[0]);
    if t[0] == '"' {
        lemma_scan_string_local(t, s, off, 1);
    } else if t[0] == '{' || t[0] == '[' {
        lemma_scan_nested_local(t, s, off, 1, 1, false);
    } else if is_scalar_char(t[0]) {
        lemma_scan_scalar_local(t, s, off, 1);
    }
}

} // verus!
