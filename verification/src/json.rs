//! The notification body format, stated as a grammar over characters and
//! parsed by a verified recursive-descent parser.
//!
//! A body is a single object `{ "key": "value", ... }`. String literals
//! understand the escape sequences `\" \\ \/ \b \f \n \r \t` and `\uXXXX`
//! (surrogate pairs included) and may not hold raw control characters; the
//! usual whitespace is allowed between tokens. A member whose value is not a
//! string is carried without its content: numbers and the words `true`,
//! `false` and `null` are read exactly, while a nested object or array is
//! skipped by bracket counting — its string literals are checked and its
//! brackets counted, but their kinds and its inner punctuation are not
//! examined, so every well-formed composite passes and some ill-formed ones
//! do too.

use vstd::prelude::*;
use crate::text::{char_of_code, push_char};

verus! {

/// Whitespace between tokens.
pub open spec fn is_ws(c: char) -> bool {
    c == ' ' || c == '\t' || c == '\n' || c == '\r'
}

/// The first index at or after `i` holding no whitespace.
pub open spec fn spec_skip_ws(s: Seq<char>, i: int) -> int
    decreases s.len() - i,
{
    if 0 <= i < s.len() && is_ws(s[i]) {
        spec_skip_ws(s, i + 1)
    } else {
        i
    }
}

pub proof fn lemma_skip_ws_bounds(s: Seq<char>, i: int)
    requires
        0 <= i <= s.len(),
    ensures
        i <= spec_skip_ws(s, i) <= s.len(),
    decreases s.len() - i,
{
    if i < s.len() && is_ws(s[i]) {
        lemma_skip_ws_bounds(s, i + 1);
    }
}

/// Control characters may not stand raw inside a string literal.
pub open spec fn is_ctrl(c: char) -> bool {
    (c as u32) < 32
}

/// The characters allowed after a backslash, besides `u`.
pub open spec fn is_escape_code(c: char) -> bool {
    c == '"' || c == '\\' || c == '/' || c == 'b' || c == 'f' || c == 'n' || c == 'r' || c == 't'
}

/// A hexadecimal digit, in either case.
pub open spec fn is_hex_digit(c: char) -> bool {
    (48 <= c as u32 && c as u32 <= 57) || (97 <= c as u32 && c as u32 <= 102) || (65 <= c as u32
        && c as u32 <= 70)
}

/// The value of a hexadecimal digit.
pub open spec fn hex_val(c: char) -> int {
    if 48 <= c as u32 && c as u32 <= 57 {
        c as u32 - 48
    } else if 97 <= c as u32 && c as u32 <= 102 {
        c as u32 - 87
    } else {
        c as u32 - 55
    }
}

/// Whether four hexadecimal digits stand at `i`.
pub open spec fn hex4_ok(s: Seq<char>, i: int) -> bool {
    &&& 0 <= i
    &&& i + 4 <= s.len()
    &&& is_hex_digit(s[i])
    &&& is_hex_digit(s[i + 1])
    &&& is_hex_digit(s[i + 2])
    &&& is_hex_digit(s[i + 3])
}

/// The value of the four hexadecimal digits at `i`.
pub open spec fn hex4(s: Seq<char>, i: int) -> int {
    hex_val(s[i]) * 4096 + hex_val(s[i + 1]) * 256 + hex_val(s[i + 2]) * 16 + hex_val(s[i + 3])
}

/// The leading half of a surrogate pair.
pub open spec fn is_high_surrogate(u: int) -> bool {
    0xD800 <= u <= 0xDBFF
}

/// The trailing half of a surrogate pair.
pub open spec fn is_low_surrogate(u: int) -> bool {
    0xDC00 <= u <= 0xDFFF
}

/// The code point a surrogate pair stands for.
pub open spec fn combine_surrogates(hi: int, lo: int) -> int {
    0x10000 + (hi - 0xD800) * 1024 + (lo - 0xDC00)
}

/// The character an escape code stands for.
pub open spec fn unescaped(c: char) -> char {
    if c == 'b' {
        '\u{0008}'
    } else if c == 'f' {
        '\u{000C}'
    } else if c == 'n' {
        '\n'
    } else if c == 'r' {
        '\r'
    } else if c == 't' {
        '\t'
    } else {
        c
    }
}

/// Parses the remainder of a string literal: `i` stands just after the opening
/// quote. On success: the decoded content and the index just after the closing
/// quote.
pub open spec fn spec_parse_string_body(s: Seq<char>, i: int) -> Option<(Seq<char>, int)>
    decreases s.len() - i,
{
    if i < 0 || i >= s.len() {
        None
    } else if s[i] == '"' {
        Some((Seq::empty(), i + 1))
    } else if s[i] == '\\' {
        if i + 1 < s.len() && is_escape_code(s[i + 1]) {
            match spec_parse_string_body(s, i + 2) {
                Some((t, e)) => Some((seq![unescaped(s[i + 1])] + t, e)),
                None => None,
            }
        } else if i + 1 < s.len() && s[i + 1] == 'u' && hex4_ok(s, i + 2) {
            let u = hex4(s, i + 2);
            if is_high_surrogate(u) {
                if i + 11 < s.len() && s[i + 6] == '\\' && s[i + 7] == 'u' && hex4_ok(s, i + 8)
                    && is_low_surrogate(hex4(s, i + 8)) {
                    match spec_parse_string_body(s, i + 12) {
                        Some((t, e)) => Some(
                            ((seq![(combine_surrogates(u, hex4(s, i + 8)) as u32) as char] + t, e)),
                        ),
                        None => None,
                    }
                } else {
                    None
                }
            } else if is_low_surrogate(u) {
                None
            } else {
                match spec_parse_string_body(s, i + 6) {
                    Some((t, e)) => Some(((seq![(u as u32) as char] + t, e))),
                    None => None,
                }
            }
        } else {
            None
        }
    } else if is_ctrl(s[i]) {
        None
    } else {
        match spec_parse_string_body(s, i + 1) {
            Some((t, e)) => Some((seq![s[i]] + t, e)),
            None => None,
        }
    }
}

pub proof fn lemma_string_body_bounds(s: Seq<char>, i: int)
    requires
        0 <= i <= s.len(),
    ensures
        spec_parse_string_body(s, i) matches Some(r) ==> i < r.1 <= s.len(),
    decreases s.len() - i,
{
    if i < s.len() && s[i] == '\\' {
        if i + 1 < s.len() && is_escape_code(s[i + 1]) {
            lemma_string_body_bounds(s, i + 2);
        } else if i + 1 < s.len() && s[i + 1] == 'u' && hex4_ok(s, i + 2) {
            let u = hex4(s, i + 2);
            if is_high_surrogate(u) {
                if i + 11 < s.len() && s[i + 6] == '\\' && s[i + 7] == 'u' && hex4_ok(s, i + 8)
                    && is_low_surrogate(hex4(s, i + 8)) {
                    lemma_string_body_bounds(s, i + 12);
                }
            } else if !is_low_surrogate(u) {
                lemma_string_body_bounds(s, i + 6);
            }
        }
    } else if i < s.len() && s[i] != '"' {
        lemma_string_body_bounds(s, i + 1);
    }
}

/// Parses a string literal starting at its opening quote. On success: the
/// decoded content and the index just after the closing quote.
pub open spec fn spec_parse_string(s: Seq<char>, i: int) -> Option<(Seq<char>, int)> {
    if 0 <= i < s.len() && s[i] == '"' {
        spec_parse_string_body(s, i + 1)
    } else {
        None
    }
}

pub proof fn lemma_string_bounds(s: Seq<char>, i: int)
    requires
        0 <= i <= s.len(),
    ensures
        spec_parse_string(s, i) matches Some(r) ==> i + 1 < r.1 <= s.len(),
{
    if i < s.len() && s[i] == '"' {
        lemma_string_body_bounds(s, i + 1);
    }
}

/// A decimal digit.
pub open spec fn is_digit(c: char) -> bool {
    48 <= c as u32 && c as u32 <= 57
}

/// The first index at or after `i` holding no digit.
pub open spec fn spec_digits_end(s: Seq<char>, i: int) -> int
    decreases s.len() - i,
{
    if 0 <= i < s.len() && is_digit(s[i]) {
        spec_digits_end(s, i + 1)
    } else {
        i
    }
}

pub proof fn lemma_digits_end_bounds(s: Seq<char>, i: int)
    requires
        0 <= i <= s.len(),
    ensures
        i <= spec_digits_end(s, i) <= s.len(),
    decreases s.len() - i,
{
    if i < s.len() && is_digit(s[i]) {
        lemma_digits_end_bounds(s, i + 1);
    }
}

/// The end of a number's exponent part, if any, starting at `k`.
pub open spec fn spec_number_exp(s: Seq<char>, k: int) -> Option<int> {
    if 0 <= k < s.len() && (s[k] == 'e' || s[k] == 'E') {
        let m = if k + 1 < s.len() && (s[k + 1] == '+' || s[k + 1] == '-') {
            k + 2
        } else {
            k + 1
        };
        if m < s.len() && is_digit(s[m]) {
            Some(spec_digits_end(s, m))
        } else {
            None
        }
    } else {
        Some(k)
    }
}

/// The end of a number's fraction part, if any, then its exponent.
pub open spec fn spec_number_frac(s: Seq<char>, k: int) -> Option<int> {
    if 0 <= k < s.len() && s[k] == '.' {
        if k + 1 < s.len() && is_digit(s[k + 1]) {
            spec_number_exp(s, spec_digits_end(s, k + 1))
        } else {
            None
        }
    } else {
        spec_number_exp(s, k)
    }
}

/// The end of a number starting at `i`: an optional minus, an integer part
/// with no leading zero, then optional fraction and exponent.
pub open spec fn spec_number_end(s: Seq<char>, i: int) -> Option<int> {
    let j = if 0 <= i < s.len() && s[i] == '-' {
        i + 1
    } else {
        i
    };
    if 0 <= j < s.len() && is_digit(s[j]) {
        let k = if s[j] == '0' {
            j + 1
        } else {
            spec_digits_end(s, j)
        };
        spec_number_frac(s, k)
    } else {
        None
    }
}

pub proof fn lemma_number_end_bounds(s: Seq<char>, i: int)
    requires
        0 <= i <= s.len(),
    ensures
        spec_number_end(s, i) matches Some(e) ==> i < e <= s.len(),
{
    let j = if i < s.len() && s[i] == '-' {
        i + 1
    } else {
        i
    };
    if j < s.len() && is_digit(s[j]) {
        let k = if s[j] == '0' {
            j + 1
        } else {
            spec_digits_end(s, j)
        };
        lemma_digits_end_bounds(s, j);
        assert(k <= s.len());
        assert(spec_digits_end(s, j) == spec_digits_end(s, j + 1));
        lemma_digits_end_bounds(s, j + 1);
        assert(k >= j + 1);
        if k < s.len() && s[k] == '.' {
            if k + 1 < s.len() && is_digit(s[k + 1]) {
                lemma_digits_end_bounds(s, k + 1);
                lemma_number_exp_bounds(s, spec_digits_end(s, k + 1));
            }
        } else {
            lemma_number_exp_bounds(s, k);
        }
    }
}

pub proof fn lemma_number_exp_bounds(s: Seq<char>, k: int)
    requires
        0 <= k <= s.len(),
    ensures
        spec_number_exp(s, k) matches Some(e) ==> k <= e <= s.len(),
{
    if k < s.len() && (s[k] == 'e' || s[k] == 'E') {
        let m = if k + 1 < s.len() && (s[k + 1] == '+' || s[k + 1] == '-') {
            k + 2
        } else {
            k + 1
        };
        if m < s.len() && is_digit(s[m]) {
            lemma_digits_end_bounds(s, m);
        }
    }
}

/// Whether the characters of `w` stand at `i`.
pub open spec fn spec_word_at(s: Seq<char>, i: int, w: Seq<char>) -> bool {
    0 <= i && i + w.len() <= s.len() && s.subrange(i, i + w.len() as int) == w
}

/// Skips to the end of a bracketed value: `i` stands just after an opening
/// bracket, `depth` counts the brackets still open, of either kind. String
/// literals inside are read in full (escapes checked, raw control characters
/// refused); every other character only moves the bracket count.
pub open spec fn spec_skip_container(s: Seq<char>, i: int, depth: nat) -> Option<int>
    decreases s.len() - i,
    when 0 <= i <= s.len()
    via spec_skip_container_decreases
{
    if i >= s.len() {
        None
    } else if s[i] == '{' || s[i] == '[' {
        spec_skip_container(s, i + 1, depth + 1)
    } else if s[i] == '}' || s[i] == ']' {
        if depth == 1 {
            Some(i + 1)
        } else {
            spec_skip_container(s, i + 1, (depth - 1) as nat)
        }
    } else if s[i] == '"' {
        match spec_parse_string(s, i) {
            Some((t, e)) => spec_skip_container(s, e, depth),
            None => None,
        }
    } else if is_ctrl(s[i]) && !is_ws(s[i]) {
        None
    } else {
        spec_skip_container(s, i + 1, depth)
    }
}

#[via_fn]
proof fn spec_skip_container_decreases(s: Seq<char>, i: int, depth: nat) {
    if 0 <= i < s.len() && s[i] == '"' {
        lemma_string_bounds(s, i);
    }
}

pub proof fn lemma_skip_container_bounds(s: Seq<char>, i: int, depth: nat)
    requires
        0 <= i <= s.len(),
    ensures
        spec_skip_container(s, i, depth) matches Some(e) ==> i < e <= s.len(),
    decreases s.len() - i,
{
    if i < s.len() {
        if s[i] == '{' || s[i] == '[' {
            lemma_skip_container_bounds(s, i + 1, depth + 1);
        } else if s[i] == '}' || s[i] == ']' {
            if depth != 1 {
                lemma_skip_container_bounds(s, i + 1, (depth - 1) as nat);
            }
        } else if s[i] == '"' {
            lemma_string_bounds(s, i);
            match spec_parse_string(s, i) {
                Some((t, e)) => {
                    lemma_skip_container_bounds(s, e, depth);
                },
                None => {},
            }
        } else if is_ctrl(s[i]) && !is_ws(s[i]) {
        } else {
            lemma_skip_container_bounds(s, i + 1, depth);
        }
    }
}

/// The end of a member value that is not a string: a number, one of the words
/// `true`, `false` and `null`, or a bracketed composite.
pub open spec fn spec_other_value_end(s: Seq<char>, i: int) -> Option<int> {
    if 0 <= i < s.len() && (s[i] == '{' || s[i] == '[') {
        spec_skip_container(s, i + 1, 1)
    } else if spec_word_at(s, i, seq!['t', 'r', 'u', 'e']) {
        Some(i + 4)
    } else if spec_word_at(s, i, seq!['f', 'a', 'l', 's', 'e']) {
        Some(i + 5)
    } else if spec_word_at(s, i, seq!['n', 'u', 'l', 'l']) {
        Some(i + 4)
    } else {
        spec_number_end(s, i)
    }
}

pub proof fn lemma_other_value_end_bounds(s: Seq<char>, i: int)
    requires
        0 <= i <= s.len(),
    ensures
        spec_other_value_end(s, i) matches Some(e) ==> i < e <= s.len(),
{
    if i < s.len() && (s[i] == '{' || s[i] == '[') {
        lemma_skip_container_bounds(s, i + 1, 1);
    } else {
        lemma_number_end_bounds(s, i);
    }
}

/// Parses one `"key" : value` member starting at the key's opening quote.
/// A string value is decoded; any other value is carried without content.
pub open spec fn spec_parse_member(s: Seq<char>, i: int) -> Option<
    ((Seq<char>, Option<Seq<char>>), int),
> {
    match spec_parse_string(s, i) {
        Some((key, a)) => {
            let j = spec_skip_ws(s, a);
            if j < s.len() && s[j] == ':' {
                let b = spec_skip_ws(s, j + 1);
                if b < s.len() && s[b] == '"' {
                    match spec_parse_string(s, b) {
                        Some((val, e)) => Some(((key, Some(val)), e)),
                        None => None,
                    }
                } else {
                    match spec_other_value_end(s, b) {
                        Some(e) => Some(((key, None), e)),
                        None => None,
                    }
                }
            } else {
                None
            }
        },
        None => None,
    }
}

pub proof fn lemma_member_bounds(s: Seq<char>, i: int)
    requires
        0 <= i <= s.len(),
    ensures
        spec_parse_member(s, i) matches Some(r) ==> i < r.1 <= s.len(),
{
    lemma_string_bounds(s, i);
    match spec_parse_string(s, i) {
        Some((key, a)) => {
            lemma_skip_ws_bounds(s, a);
            let j = spec_skip_ws(s, a);
            if j < s.len() && s[j] == ':' {
                lemma_skip_ws_bounds(s, j + 1);
                let b = spec_skip_ws(s, j + 1);
                if b < s.len() && s[b] == '"' {
                    lemma_string_bounds(s, b);
                } else {
                    lemma_other_value_end_bounds(s, b);
                }
            }
        },
        None => {},
    }
}

/// Parses the members that follow an already-parsed member: either the closing
/// brace, or a comma and a further member, repeatedly. `k` stands just after
/// the previous member. On success: the remaining key/value pairs and the
/// index just after the closing brace.
pub open spec fn spec_parse_members_rest(s: Seq<char>, k: int) -> Option<
    (Seq<(Seq<char>, Option<Seq<char>>)>, int),
>
    decreases s.len() - k,
    when 0 <= k <= s.len()
    via spec_parse_members_rest_decreases
{
    let j = spec_skip_ws(s, k);
    if j < s.len() && s[j] == '}' {
        Some((Seq::empty(), j + 1))
    } else if j < s.len() && s[j] == ',' {
        let b = spec_skip_ws(s, j + 1);
        match spec_parse_member(s, b) {
            Some((kv, k2)) => match spec_parse_members_rest(s, k2) {
                Some((rest, e)) => Some((seq![kv] + rest, e)),
                None => None,
            },
            None => None,
        }
    } else {
        None
    }
}

#[via_fn]
proof fn spec_parse_members_rest_decreases(s: Seq<char>, k: int) {
    lemma_skip_ws_bounds(s, k);
    let j = spec_skip_ws(s, k);
    if j < s.len() && s[j] != '}' && s[j] == ',' {
        lemma_skip_ws_bounds(s, j + 1);
        let b = spec_skip_ws(s, j + 1);
        lemma_member_bounds(s, b);
    }
}

pub proof fn lemma_members_rest_bounds(s: Seq<char>, k: int)
    requires
        0 <= k <= s.len(),
    ensures
        spec_parse_members_rest(s, k) matches Some(r) ==> k < r.1 <= s.len(),
    decreases s.len() - k,
{
    lemma_skip_ws_bounds(s, k);
    let j = spec_skip_ws(s, k);
    if j < s.len() && s[j] == '}' {
    } else if j < s.len() && s[j] == ',' {
        lemma_skip_ws_bounds(s, j + 1);
        let b = spec_skip_ws(s, j + 1);
        lemma_member_bounds(s, b);
        match spec_parse_member(s, b) {
            Some((kv, k2)) => {
                lemma_members_rest_bounds(s, k2);
            },
            None => {},
        }
    }
}

/// Parses the inside of an object: `i` stands just after the opening brace.
/// On success: the key/value pairs in order and the index just after the
/// closing brace.
pub open spec fn spec_parse_members(s: Seq<char>, i: int) -> Option<
    (Seq<(Seq<char>, Option<Seq<char>>)>, int),
> {
    let j = spec_skip_ws(s, i);
    if j < s.len() && s[j] == '}' {
        Some((Seq::empty(), j + 1))
    } else {
        match spec_parse_member(s, j) {
            Some((kv, k)) => match spec_parse_members_rest(s, k) {
                Some((rest, e)) => Some((seq![kv] + rest, e)),
                None => None,
            },
            None => None,
        }
    }
}

/// Parses a whole body: optional whitespace, one object, optional whitespace,
/// end of input. On success: the object's key/value pairs in order.
pub open spec fn spec_parse_object(s: Seq<char>) -> Option<Seq<(Seq<char>, Option<Seq<char>>)>> {
    let i = spec_skip_ws(s, 0);
    if i < s.len() && s[i] == '{' {
        match spec_parse_members(s, i + 1) {
            Some((kvs, e)) => {
                if spec_skip_ws(s, e) == s.len() {
                    Some(kvs)
                } else {
                    None
                }
            },
            None => None,
        }
    } else {
        None
    }
}

/// The lower-case hexadecimal digit of a value below sixteen.
pub open spec fn hex_digit_char(d: int) -> char {
    if d == 0 { '0' } else if d == 1 { '1' } else if d == 2 { '2' } else if d == 3 { '3' }
    else if d == 4 { '4' } else if d == 5 { '5' } else if d == 6 { '6' } else if d == 7 { '7' }
    else if d == 8 { '8' } else if d == 9 { '9' } else if d == 10 { 'a' } else if d == 11 { 'b' }
    else if d == 12 { 'c' } else if d == 13 { 'd' } else if d == 14 { 'e' } else { 'f' }
}

/// How one character of a field is written inside a string literal: quotes,
/// backslashes and control characters take an escape, every other character
/// stands as itself.
pub open spec fn escape_char(c: char) -> Seq<char> {
    if c == '"' {
        seq!['\\', '"']
    } else if c == '\\' {
        seq!['\\', '\\']
    } else if c == '\u{0008}' {
        seq!['\\', 'b']
    } else if c == '\u{000C}' {
        seq!['\\', 'f']
    } else if c == '\n' {
        seq!['\\', 'n']
    } else if c == '\r' {
        seq!['\\', 'r']
    } else if c == '\t' {
        seq!['\\', 't']
    } else if is_ctrl(c) {
        seq!['\\', 'u', '0', '0', hex_digit_char(c as u32 as int / 16), hex_digit_char(c as u32 as int % 16)]
    } else {
        seq![c]
    }
}

/// How a whole field is written inside a string literal.
pub open spec fn escape_string(s: Seq<char>) -> Seq<char>
    decreases s.len(),
{
    if s.len() == 0 {
        Seq::empty()
    } else {
        escape_char(s[0]) + escape_string(s.drop_first())
    }
}

/// Parsing a string body does not look behind its starting point: dropping a
/// prefix of the input shifts the result by the prefix's length.
pub proof fn lemma_body_shift(w: Seq<char>, k: int, i: int)
    requires
        0 <= k <= i <= w.len(),
    ensures
        spec_parse_string_body(w, i) == (match spec_parse_string_body(w.skip(k), i - k) {
            Some((t, e)) => Some((t, e + k)),
            None => None,
        }),
    decreases w.len() - i,
{
    let ws = w.skip(k);
    if i < w.len() {
        assert(ws[i - k] == w[i]);
        if w[i] == '"' {
        } else if w[i] == '\\' {
            if i + 1 < w.len() && is_escape_code(w[i + 1]) {
                assert(ws[i + 1 - k] == w[i + 1]);
                lemma_body_shift(w, k, i + 2);
            } else if i + 1 < w.len() && w[i + 1] == 'u' {
                assert(ws[i + 1 - k] == w[i + 1]);
                if i + 6 <= w.len() {
                    assert(ws[i + 2 - k] == w[i + 2]);
                    assert(ws[i + 3 - k] == w[i + 3]);
                    assert(ws[i + 4 - k] == w[i + 4]);
                    assert(ws[i + 5 - k] == w[i + 5]);
                }
                if hex4_ok(w, i + 2) {
                    let u = hex4(w, i + 2);
                    assert(hex4_ok(ws, i + 2 - k) && hex4(ws, i + 2 - k) == u);
                    if is_high_surrogate(u) {
                        if i + 11 < w.len() {
                            assert(ws[i + 6 - k] == w[i + 6]);
                            assert(ws[i + 7 - k] == w[i + 7]);
                            assert(ws[i + 8 - k] == w[i + 8]);
                            assert(ws[i + 9 - k] == w[i + 9]);
                            assert(ws[i + 10 - k] == w[i + 10]);
                            assert(ws[i + 11 - k] == w[i + 11]);
                            if w[i + 6] == '\\' && w[i + 7] == 'u' && hex4_ok(w, i + 8)
                                && is_low_surrogate(hex4(w, i + 8)) {
                                assert(hex4_ok(ws, i + 8 - k) && hex4(ws, i + 8 - k) == hex4(
                                    w,
                                    i + 8,
                                ));
                                lemma_body_shift(w, k, i + 12);
                            }
                        }
                    } else if !is_low_surrogate(u) {
                        lemma_body_shift(w, k, i + 6);
                    }
                } else {
                    assert(!hex4_ok(ws, i + 2 - k));
                }
            } else if i + 1 < w.len() {
                assert(ws[i + 1 - k] == w[i + 1]);
            }
        } else if is_ctrl(w[i]) {
        } else {
            lemma_body_shift(w, k, i + 1);
        }
    }
}

/// The round trip over a string body: whatever characters a field holds,
/// escaping it, closing the literal and parsing yields the field unchanged,
/// with the input beyond the closing quote untouched.
#[verifier::rlimit(100)]
pub proof fn lemma_escape_round_trip(s: Seq<char>, tail: Seq<char>)
    ensures
        spec_parse_string_body(escape_string(s) + seq!['"'] + tail, 0) == Some(
            (s, escape_string(s).len() + 1 as int),
        ),
    decreases s.len(),
{
    let w = escape_string(s) + seq!['"'] + tail;
    if s.len() == 0 {
        assert(escape_string(s) =~= Seq::<char>::empty());
        assert(w[0] == '"');
    } else {
        let c = s[0];
        let s1 = s.drop_first();
        assert(escape_string(s) == escape_char(c) + escape_string(s1));
        if c == '"' || c == '\\' || c == '\u{0008}' || c == '\u{000C}' || c == '\n' || c == '\r'
            || c == '\t' {
            assert(w[0] == escape_char(c)[0]);
            assert(w[1] == escape_char(c)[1]);
            assert(w[0] == '\\');
            assert(is_escape_code(w[1]));
            assert(unescaped(w[1]) == c);
            assert(w.skip(2) =~= escape_string(s1) + seq!['"'] + tail);
            lemma_escape_round_trip(s1, tail);
            lemma_body_shift(w, 2, 2);
            assert(seq![c] + s1 =~= s);
        } else if is_ctrl(c) {
            let u = c as u32;
            let d1 = u as int / 16;
            let d2 = u as int % 16;
            assert(w[0] == escape_char(c)[0]);
            assert(w[1] == escape_char(c)[1]);
            assert(w[2] == escape_char(c)[2]);
            assert(w[3] == escape_char(c)[3]);
            assert(w[4] == escape_char(c)[4]);
            assert(w[5] == escape_char(c)[5]);
            assert(w[0] == '\\');
            assert(w[1] == 'u');
            assert(!is_escape_code('u'));
            assert(w[2] == '0' && w[3] == '0');
            assert(w[4] == hex_digit_char(d1) && w[5] == hex_digit_char(d2));
            assert(is_hex_digit(w[4]) && hex_val(w[4]) == d1);
            assert(is_hex_digit(w[5]) && hex_val(w[5]) == d2);
            assert(hex4_ok(w, 2));
            assert(hex4(w, 2) == 16 * d1 + d2);
            assert(hex4(w, 2) == u);
            assert(!is_high_surrogate(u as int) && !is_low_surrogate(u as int));
            assert(((hex4(w, 2) as u32) as char) == c) by {
                vstd::utf8::char_u32_cast(c, u);
            }
            assert(w.skip(6) =~= escape_string(s1) + seq!['"'] + tail);
            lemma_escape_round_trip(s1, tail);
            lemma_body_shift(w, 6, 6);
            assert(seq![c] + s1 =~= s);
        } else {
            assert(w[0] == escape_char(c)[0]);
            assert(w[0] == c);
            assert(!is_ctrl(c));
            assert(w.skip(1) =~= escape_string(s1) + seq!['"'] + tail);
            lemma_escape_round_trip(s1, tail);
            lemma_body_shift(w, 1, 1);
            assert(seq![c] + s1 =~= s);
        }
    }
}

/// The canonical writing of one member, without whitespace.
pub open spec fn ser_member(key: Seq<char>, val: Seq<char>) -> Seq<char> {
    seq!['"'] + escape_string(key) + seq!['"', ':', '"'] + escape_string(val) + seq!['"']
}

/// The canonical writing of the members after the first one, closing brace
/// included.
pub open spec fn ser_members_rest(kvs: Seq<(Seq<char>, Seq<char>)>) -> Seq<char>
    decreases kvs.len(),
{
    if kvs.len() == 0 {
        seq!['}']
    } else {
        seq![','] + ser_member(kvs[0].0, kvs[0].1) + ser_members_rest(kvs.drop_first())
    }
}

/// The canonical writing of a whole object, without whitespace.
pub open spec fn ser_object(kvs: Seq<(Seq<char>, Seq<char>)>) -> Seq<char> {
    if kvs.len() == 0 {
        seq!['{', '}']
    } else {
        seq!['{'] + ser_member(kvs[0].0, kvs[0].1) + ser_members_rest(kvs.drop_first())
    }
}

/// The members of a canonically written object, as the parser reports them:
/// every value a string.
pub open spec fn string_members(kvs: Seq<(Seq<char>, Seq<char>)>) -> Seq<
    (Seq<char>, Option<Seq<char>>),
> {
    Seq::new(kvs.len(), |i: int| (kvs[i].0, Some(kvs[i].1)))
}

/// Parsing a canonically written member out of any surrounding text yields
/// the member back.
#[verifier::rlimit(100)]
pub proof fn lemma_member_round_trip(w: Seq<char>, key: Seq<char>, val: Seq<char>, i: int)
    requires
        0 <= i <= w.len(),
        ser_member(key, val).is_prefix_of(w.skip(i)),
    ensures
        spec_parse_member(w, i) == Some(
            ((key, Some(val)), i + ser_member(key, val).len() as int),
        ),
{
    let m = ser_member(key, val);
    let ek = escape_string(key).len() as int;
    let ev = escape_string(val).len() as int;
    assert(m.len() == ek + ev + 5);
    assert(forall|t: int| 0 <= t < m.len() ==> w.skip(i)[t] == #[trigger] w[i + t]);
    assert(forall|t: int| 0 <= t < m.len() ==> #[trigger] m[t] == w[i + t]);
    assert(m[0] == '"');
    assert(m[ek + 1] == '"');
    assert(m[ek + 2] == ':');
    assert(m[ek + 3] == '"');
    assert(m[ek + ev + 4] == '"');
    // the key's literal
    assert(w[i] == '"');
    assert(w.skip(i + 1) =~= escape_string(key) + seq!['"'] + w.skip(i + 2 + ek)) by {
        assert(forall|t: int| 0 <= t < ek ==> m[1 + t] == #[trigger] escape_string(key)[t]);
    }
    lemma_escape_round_trip(key, w.skip(i + 2 + ek));
    lemma_body_shift(w, i + 1, i + 1);
    let a = i + ek + 2;
    assert(spec_parse_string(w, i) == Some((key, a)));
    // the colon between the literals
    assert(w[a] == ':');
    assert(spec_skip_ws(w, a) == a);
    assert(w[a + 1] == '"');
    assert(spec_skip_ws(w, a + 1) == a + 1);
    // the value's literal
    assert(w.skip(a + 2) =~= escape_string(val) + seq!['"'] + w.skip(a + 3 + ev)) by {
        assert(forall|t: int| 0 <= t < ev ==> m[ek + 4 + t] == #[trigger] escape_string(val)[t]);
    }
    lemma_escape_round_trip(val, w.skip(a + 3 + ev));
    lemma_body_shift(w, a + 2, a + 2);
    assert(a + 1 < w.len());
    assert(spec_parse_string(w, a + 1) == Some((val, a + ev + 3)));
}

/// Parsing the canonical writing of the members after the first one yields
/// them back, ending just after the closing brace.
#[verifier::rlimit(100)]
pub proof fn lemma_members_rest_round_trip(w: Seq<char>, kvs: Seq<(Seq<char>, Seq<char>)>, k: int)
    requires
        0 <= k <= w.len(),
        ser_members_rest(kvs).is_prefix_of(w.skip(k)),
    ensures
        spec_parse_members_rest(w, k) == Some(
            (string_members(kvs), k + ser_members_rest(kvs).len() as int),
        ),
    decreases kvs.len(),
{
    let r = ser_members_rest(kvs);
    assert(forall|t: int| 0 <= t < r.len() ==> w.skip(k)[t] == #[trigger] w[k + t]);
    assert(forall|t: int| 0 <= t < r.len() ==> #[trigger] r[t] == w[k + t]);
    if kvs.len() == 0 {
        assert(r =~= seq!['}']);
        assert(r[0] == '}');
        assert(w[k] == '}');
        assert(spec_skip_ws(w, k) == k);
        assert(string_members(kvs) =~= Seq::<(Seq<char>, Option<Seq<char>>)>::empty());
    } else {
        let m = ser_member(kvs[0].0, kvs[0].1);
        assert(r[0] == ',');
        assert(w[k] == ',');
        assert(spec_skip_ws(w, k) == k);
        assert(r[1] == m[0]);
        assert(m[0] == '"');
        assert(w[k + 1] == '"');
        assert(spec_skip_ws(w, k + 1) == k + 1);
        assert(m.is_prefix_of(w.skip(k + 1))) by {
            assert(forall|t: int| 0 <= t < m.len() ==> #[trigger] m[t] == r[1 + t]);
            assert(forall|t: int| 0 <= t < m.len() ==> #[trigger] w.skip(k + 1)[t] == w[k + 1 + t]);
            assert(w.skip(k + 1).subrange(0, m.len() as int) =~= m);
        }
        lemma_member_round_trip(w, kvs[0].0, kvs[0].1, k + 1);
        let k2 = k + 1 + m.len() as int;
        let rest = ser_members_rest(kvs.drop_first());
        assert(rest.is_prefix_of(w.skip(k2))) by {
            assert(forall|t: int| 0 <= t < rest.len() ==> #[trigger] rest[t] == r[1 + m.len() + t]);
            assert(forall|t: int| 0 <= t < rest.len() ==> #[trigger] w.skip(k2)[t] == w[k2 + t]);
            assert(w.skip(k2).subrange(0, rest.len() as int) =~= rest);
        }
        lemma_members_rest_round_trip(w, kvs.drop_first(), k2);
        assert(seq![(kvs[0].0, Some(kvs[0].1))] + string_members(kvs.drop_first())
            =~= string_members(kvs));
    }
}

/// The round trip over a whole object: parsing the canonical writing of any
/// member list yields exactly that list.
#[verifier::rlimit(100)]
pub proof fn lemma_object_round_trip(kvs: Seq<(Seq<char>, Seq<char>)>)
    ensures
        spec_parse_object(ser_object(kvs)) == Some(string_members(kvs)),
{
    let w = ser_object(kvs);
    if kvs.len() == 0 {
        assert(w =~= seq!['{', '}']);
        assert(w[0] == '{');
        assert(spec_skip_ws(w, 0) == 0);
        assert(w[1] == '}');
        assert(spec_skip_ws(w, 1) == 1);
        assert(spec_skip_ws(w, 2) == 2);
        assert(spec_parse_members(w, 1) == Some(
            (Seq::<(Seq<char>, Option<Seq<char>>)>::empty(), 2int),
        ));
        assert(string_members(kvs) =~= Seq::<(Seq<char>, Option<Seq<char>>)>::empty());
    } else {
        let m = ser_member(kvs[0].0, kvs[0].1);
        let rest = ser_members_rest(kvs.drop_first());
        assert(w.len() == 1 + m.len() + rest.len());
        assert(forall|t: int| 0 <= t < m.len() ==> #[trigger] w[1 + t] == m[t]);
        assert(forall|t: int| 0 <= t < rest.len() ==> #[trigger] w[1 + m.len() + t] == rest[t]);
        assert(w[0] == '{');
        assert(spec_skip_ws(w, 0) == 0);
        assert(m[0] == '"');
        assert(w[1] == '"');
        assert(spec_skip_ws(w, 1) == 1);
        assert(m.is_prefix_of(w.skip(1))) by {
            assert(forall|t: int| 0 <= t < m.len() ==> #[trigger] w.skip(1)[t] == w[1 + t]);
            assert(w.skip(1).subrange(0, m.len() as int) =~= m);
        }
        lemma_member_round_trip(w, kvs[0].0, kvs[0].1, 1);
        let k2 = 1 + m.len() as int;
        assert(rest.is_prefix_of(w.skip(k2))) by {
            assert(forall|t: int| 0 <= t < rest.len() ==> #[trigger] w.skip(k2)[t] == w[k2 + t]);
            assert(w.skip(k2).subrange(0, rest.len() as int) =~= rest);
        }
        lemma_members_rest_round_trip(w, kvs.drop_first(), k2);
        assert(seq![(kvs[0].0, Some(kvs[0].1))] + string_members(kvs.drop_first())
            =~= string_members(kvs));
        assert(spec_skip_ws(w, w.len() as int) == w.len());
    }
}

/// The views of parsed key/value pairs.
pub open spec fn kv_views(kvs: Seq<(String, Option<String>)>) -> Seq<
    (Seq<char>, Option<Seq<char>>),
> {
    Seq::new(
        kvs.len(),
        |i: int|
            (
                kvs[i].0@,
                match kvs[i].1 {
                    Some(v) => Some(v@),
                    None => None,
                },
            ),
    )
}

fn skip_ws(s: &Vec<char>, i: usize) -> (r: usize)
    requires
        i <= s.len(),
    ensures
        r == spec_skip_ws(s@, i as int),
        i <= r <= s.len(),
{
    let mut j = i;
    while j < s.len() && (s[j] == ' ' || s[j] == '\t' || s[j] == '\n' || s[j] == '\r')
        invariant
            i <= j <= s@.len(),
            spec_skip_ws(s@, i as int) == spec_skip_ws(s@, j as int),
        decreases s@.len() - j,
    {
        j = j + 1;
    }
    j
}

fn hex_nibble(c: char) -> (r: Option<u32>)
    ensures
        r matches Some(d) ==> is_hex_digit(c) && d as int == hex_val(c) && d < 16,
        r is None ==> !is_hex_digit(c),
{
    let u = c as u32;
    if 48 <= u && u <= 57 {
        Some(u - 48)
    } else if 97 <= u && u <= 102 {
        Some(u - 87)
    } else if 65 <= u && u <= 70 {
        Some(u - 55)
    } else {
        None
    }
}

fn read_hex4(s: &Vec<char>, p: usize) -> (r: Option<u32>)
    requires
        p + 4 <= s.len(),
    ensures
        r matches Some(u) ==> hex4_ok(s@, p as int) && u as int == hex4(s@, p as int) && u
            <= 0xFFFF,
        r is None ==> !hex4_ok(s@, p as int),
{
    let d0 = match hex_nibble(s[p]) {
        None => {
            return None;
        },
        Some(d) => d,
    };
    let d1 = match hex_nibble(s[p + 1]) {
        None => {
            return None;
        },
        Some(d) => d,
    };
    let d2 = match hex_nibble(s[p + 2]) {
        None => {
            return None;
        },
        Some(d) => d,
    };
    let d3 = match hex_nibble(s[p + 3]) {
        None => {
            return None;
        },
        Some(d) => d,
    };
    Some(d0 * 4096 + d1 * 256 + d2 * 16 + d3)
}

fn parse_string(s: &Vec<char>, i: usize) -> (r: Option<(String, usize)>)
    requires
        i <= s.len(),
    ensures
        r matches Some((t, e)) ==> spec_parse_string(s@, i as int) == Some((t@, e as int)) && i
            < e <= s.len(),
        r is None ==> spec_parse_string(s@, i as int) is None,
{
    if i >= s.len() || s[i] != '"' {
        return None;
    }
    let mut acc = String::new();
    let mut j = i + 1;
    while j < s.len() && s[j] != '"'
        invariant
            i + 1 <= j <= s@.len(),
            i < s@.len(),
            s@[i as int] == '"',
            match spec_parse_string_body(s@, j as int) {
                Some((t, e)) => spec_parse_string_body(s@, i + 1) == Some((acc@ + t, e)),
                None => spec_parse_string_body(s@, i + 1) is None,
            },
        decreases s@.len() - j,
    {
        let c = s[j];
        if c == '\\' {
            if j + 1 < s.len()
                && (s[j + 1] == '"' || s[j + 1] == '\\' || s[j + 1] == '/'
                    || s[j + 1] == 'b' || s[j + 1] == 'f' || s[j + 1] == 'n'
                    || s[j + 1] == 'r' || s[j + 1] == 't') {
                let esc = s[j + 1];
                let u = if esc == 'b' {
                    '\u{0008}'
                } else if esc == 'f' {
                    '\u{000C}'
                } else if esc == 'n' {
                    '\n'
                } else if esc == 'r' {
                    '\r'
                } else if esc == 't' {
                    '\t'
                } else {
                    esc
                };
                proof {
                    assert(u == unescaped(s@[j + 1]));
                }
                let ghost acc_old = acc@;
                push_char(&mut acc, u);
                proof {
                    match spec_parse_string_body(s@, j + 2) {
                        Some((t, e)) => {
                            assert(acc@ + t =~= acc_old + (seq![u] + t));
                        },
                        None => {},
                    }
                }
                j = j + 2;
            } else if j + 1 < s.len() && s[j + 1] == 'u' {
                if s.len() - j <= 5 {
                    return None;
                }
                let hi = match read_hex4(s, j + 2) {
                    None => {
                        return None;
                    },
                    Some(u) => u,
                };
                if 0xD800 <= hi && hi <= 0xDBFF {
                    if !(s.len() - j > 11 && s[j + 6] == '\\' && s[j + 7] == 'u') {
                        return None;
                    }
                    let lo = match read_hex4(s, j + 8) {
                        None => {
                            return None;
                        },
                        Some(u) => u,
                    };
                    if !(0xDC00 <= lo && lo <= 0xDFFF) {
                        return None;
                    }
                    let code: u32 = 0x10000 + (hi - 0xD800) * 1024 + (lo - 0xDC00);
                    let u = char_of_code(code);
                    proof {
                        assert(code as int == combine_surrogates(
                            hex4(s@, j + 2),
                            hex4(s@, j + 8),
                        ));
                    }
                    let ghost acc_old = acc@;
                    push_char(&mut acc, u);
                    proof {
                        match spec_parse_string_body(s@, j + 12) {
                            Some((t, e)) => {
                                assert(acc@ + t =~= acc_old + (seq![u] + t));
                            },
                            None => {},
                        }
                    }
                    j = j + 12;
                } else if 0xDC00 <= hi && hi <= 0xDFFF {
                    return None;
                } else {
                    let u = char_of_code(hi);
                    let ghost acc_old = acc@;
                    push_char(&mut acc, u);
                    proof {
                        match spec_parse_string_body(s@, j + 6) {
                            Some((t, e)) => {
                                assert(acc@ + t =~= acc_old + (seq![u] + t));
                            },
                            None => {},
                        }
                    }
                    j = j + 6;
                }
            } else {
                return None;
            }
        } else if (c as u32) < 32 {
            return None;
        } else {
            let ghost acc_old = acc@;
            push_char(&mut acc, c);
            proof {
                match spec_parse_string_body(s@, j + 1) {
                    Some((t, e)) => {
                        assert(acc@ + t =~= acc_old + (seq![c] + t));
                    },
                    None => {},
                }
            }
            j = j + 1;
        }
    }
    if j < s.len() {
        proof {
            assert(spec_parse_string_body(s@, j as int) == Some(
                (Seq::<char>::empty(), j + 1),
            ));
            assert(acc@ + Seq::<char>::empty() =~= acc@);
        }
        Some((acc, j + 1))
    } else {
        None
    }
}

fn digits_end(s: &Vec<char>, i: usize) -> (r: usize)
    requires
        i <= s.len(),
    ensures
        r == spec_digits_end(s@, i as int),
        i <= r <= s.len(),
{
    let mut j = i;
    while j < s.len() && 48 <= (s[j] as u32) && (s[j] as u32) <= 57
        invariant
            i <= j <= s@.len(),
            spec_digits_end(s@, i as int) == spec_digits_end(s@, j as int),
        decreases s@.len() - j,
    {
        j = j + 1;
    }
    j
}

fn number_end(s: &Vec<char>, i: usize) -> (r: Option<usize>)
    requires
        i <= s.len(),
    ensures
        r matches Some(e) ==> spec_number_end(s@, i as int) == Some(e as int) && i < e <= s.len(),
        r is None ==> spec_number_end(s@, i as int) is None,
{
    proof {
        lemma_number_end_bounds(s@, i as int);
    }
    let j = if i < s.len() && s[i] == '-' {
        i + 1
    } else {
        i
    };
    if !(j < s.len() && 48 <= (s[j] as u32) && (s[j] as u32) <= 57) {
        return None;
    }
    let k = if s[j] == '0' {
        j + 1
    } else {
        digits_end(s, j)
    };
    let k2 = if k < s.len() && s[k] == '.' {
        if k + 1 < s.len() && 48 <= (s[k + 1] as u32) && (s[k + 1] as u32) <= 57 {
            digits_end(s, k + 1)
        } else {
            return None;
        }
    } else {
        k
    };
    if k2 < s.len() && (s[k2] == 'e' || s[k2] == 'E') {
        let m = if k2 + 1 < s.len() && (s[k2 + 1] == '+' || s[k2 + 1] == '-') {
            k2 + 2
        } else {
            k2 + 1
        };
        if m < s.len() && 48 <= (s[m] as u32) && (s[m] as u32) <= 57 {
            Some(digits_end(s, m))
        } else {
            None
        }
    } else {
        Some(k2)
    }
}

fn word_true_at(s: &Vec<char>, i: usize) -> (r: bool)
    requires
        i <= s.len(),
    ensures
        r == spec_word_at(s@, i as int, seq!['t', 'r', 'u', 'e']),
{
    if s.len() >= 4 && i <= s.len() - 4 && s[i] == 't' && s[i + 1] == 'r' && s[i + 2] == 'u'
        && s[i + 3] == 'e' {
        proof {
            assert(s@.subrange(i as int, i + 4) =~= seq!['t', 'r', 'u', 'e']);
        }
        true
    } else {
        proof {
            if i + 4 <= s@.len() {
                assert(s@.subrange(i as int, i + 4)[0] == s@[i as int]);
                assert(s@.subrange(i as int, i + 4)[1] == s@[i + 1]);
                assert(s@.subrange(i as int, i + 4)[2] == s@[i + 2]);
                assert(s@.subrange(i as int, i + 4)[3] == s@[i + 3]);
            }
        }
        false
    }
}

fn word_false_at(s: &Vec<char>, i: usize) -> (r: bool)
    requires
        i <= s.len(),
    ensures
        r == spec_word_at(s@, i as int, seq!['f', 'a', 'l', 's', 'e']),
{
    if s.len() >= 5 && i <= s.len() - 5 && s[i] == 'f' && s[i + 1] == 'a' && s[i + 2] == 'l'
        && s[i + 3] == 's' && s[i + 4] == 'e' {
        proof {
            assert(s@.subrange(i as int, i + 5) =~= seq!['f', 'a', 'l', 's', 'e']);
        }
        true
    } else {
        proof {
            if i + 5 <= s@.len() {
                assert(s@.subrange(i as int, i + 5)[0] == s@[i as int]);
                assert(s@.subrange(i as int, i + 5)[1] == s@[i + 1]);
                assert(s@.subrange(i as int, i + 5)[2] == s@[i + 2]);
                assert(s@.subrange(i as int, i + 5)[3] == s@[i + 3]);
                assert(s@.subrange(i as int, i + 5)[4] == s@[i + 4]);
            }
        }
        false
    }
}

fn word_null_at(s: &Vec<char>, i: usize) -> (r: bool)
    requires
        i <= s.len(),
    ensures
        r == spec_word_at(s@, i as int, seq!['n', 'u', 'l', 'l']),
{
    if s.len() >= 4 && i <= s.len() - 4 && s[i] == 'n' && s[i + 1] == 'u' && s[i + 2] == 'l'
        && s[i + 3] == 'l' {
        proof {
            assert(s@.subrange(i as int, i + 4) =~= seq!['n', 'u', 'l', 'l']);
        }
        true
    } else {
        proof {
            if i + 4 <= s@.len() {
                assert(s@.subrange(i as int, i + 4)[0] == s@[i as int]);
                assert(s@.subrange(i as int, i + 4)[1] == s@[i + 1]);
                assert(s@.subrange(i as int, i + 4)[2] == s@[i + 2]);
                assert(s@.subrange(i as int, i + 4)[3] == s@[i + 3]);
            }
        }
        false
    }
}

fn skip_container(s: &Vec<char>, start: usize) -> (r: Option<usize>)
    requires
        1 <= start <= s.len(),
    ensures
        r matches Some(e) ==> spec_skip_container(s@, start as int, 1) == Some(e as int) && start
            < e <= s.len(),
        r is None ==> spec_skip_container(s@, start as int, 1) is None,
{
    let mut i = start;
    let mut depth: usize = 1;
    loop
        invariant
            1 <= start <= i <= s@.len(),
            1 <= depth <= i - start + 1,
            spec_skip_container(s@, start as int, 1) == spec_skip_container(
                s@,
                i as int,
                depth as nat,
            ),
        decreases s@.len() - i,
    {
        if i >= s.len() {
            return None;
        }
        let c = s[i];
        if c == '{' || c == '[' {
            depth = depth + 1;
            i = i + 1;
        } else if c == '}' || c == ']' {
            if depth == 1 {
                return Some(i + 1);
            }
            depth = depth - 1;
            i = i + 1;
        } else if c == '"' {
            match parse_string(s, i) {
                None => {
                    return None;
                },
                Some((t, e)) => {
                    i = e;
                },
            }
        } else if (c as u32) < 32 && !(c == ' ' || c == '\t' || c == '\n' || c == '\r') {
            return None;
        } else {
            i = i + 1;
        }
    }
}

fn other_value_end(s: &Vec<char>, i: usize) -> (r: Option<usize>)
    requires
        i <= s.len(),
    ensures
        r matches Some(e) ==> spec_other_value_end(s@, i as int) == Some(e as int) && i < e
            <= s.len(),
        r is None ==> spec_other_value_end(s@, i as int) is None,
{
    if i < s.len() && (s[i] == '{' || s[i] == '[') {
        skip_container(s, i + 1)
    } else if word_true_at(s, i) {
        Some(i + 4)
    } else if word_false_at(s, i) {
        Some(i + 5)
    } else if word_null_at(s, i) {
        Some(i + 4)
    } else {
        number_end(s, i)
    }
}

fn parse_member(s: &Vec<char>, i: usize) -> (r: Option<((String, Option<String>), usize)>)
    requires
        i <= s.len(),
    ensures
        r matches Some(((k, v), e)) ==> spec_parse_member(s@, i as int) == Some(
            ((
                k@,
                match v {
                    Some(vv) => Some(vv@),
                    None => None,
                },
            ), e as int),
        ) && i < e <= s.len(),
        r is None ==> spec_parse_member(s@, i as int) is None,
{
    let (key, a) = match parse_string(s, i) {
        None => {
            return None;
        },
        Some(p) => p,
    };
    let j = skip_ws(s, a);
    if !(j < s.len() && s[j] == ':') {
        return None;
    }
    let b = skip_ws(s, j + 1);
    if b < s.len() && s[b] == '"' {
        let (val, e) = match parse_string(s, b) {
            None => {
                return None;
            },
            Some(p) => p,
        };
        Some(((key, Some(val)), e))
    } else {
        match other_value_end(s, b) {
            None => None,
            Some(e) => Some(((key, None), e)),
        }
    }
}

fn parse_members_rest(s: &Vec<char>, k: usize) -> (r: Option<
    (Vec<(String, Option<String>)>, usize),
>)
    requires
        k <= s.len(),
    ensures
        r matches Some((kvs, e)) ==> spec_parse_members_rest(s@, k as int) == Some(
            (kv_views(kvs@), e as int),
        ) && k < e <= s.len(),
        r is None ==> spec_parse_members_rest(s@, k as int) is None,
    decreases s.len() - k,
{
    let j = skip_ws(s, k);
    if j < s.len() && s[j] == '}' {
        let kvs: Vec<(String, Option<String>)> = Vec::new();
        proof {
            assert(kv_views(kvs@) =~= Seq::<(Seq<char>, Option<Seq<char>>)>::empty());
        }
        return Some((kvs, j + 1));
    }
    if j < s.len() && s[j] == ',' {
        let b = skip_ws(s, j + 1);
        match parse_member(s, b) {
            None => None,
            Some((kv, k2)) => match parse_members_rest(s, k2) {
                None => None,
                Some((mut kvs, e)) => {
                    let ghost kvs_old = kvs@;
                    let ghost kv_g = kv;
                    kvs.insert(0, kv);
                    proof {
                        let v0 = match kv_g.1 {
                            Some(v) => Some(v@),
                            None => None::<Seq<char>>,
                        };
                        assert(kv_views(kvs@) =~= seq![(kv_g.0@, v0)] + kv_views(kvs_old));
                    }
                    Some((kvs, e))
                },
            },
        }
    } else {
        None
    }
}

/// Parses the characters of a body as one object. Returns the members in
/// order, each string value decoded and each other value carried without
/// content, exactly when the body lies in the grammar.
pub fn parse_object(s: &Vec<char>) -> (r: Option<Vec<(String, Option<String>)>>)
    ensures
        r matches Some(kvs) ==> spec_parse_object(s@) == Some(kv_views(kvs@)),
        r is None ==> spec_parse_object(s@) is None,
{
    let i = skip_ws(s, 0);
    if !(i < s.len() && s[i] == '{') {
        return None;
    }
    let j = skip_ws(s, i + 1);
    let (kvs, e): (Vec<(String, Option<String>)>, usize) = if j < s.len() && s[j] == '}' {
        let kvs: Vec<(String, Option<String>)> = Vec::new();
        proof {
            assert(kv_views(kvs@) =~= Seq::<(Seq<char>, Option<Seq<char>>)>::empty());
        }
        (kvs, j + 1)
    } else {
        let (kv, k) = match parse_member(s, j) {
            None => {
                return None;
            },
            Some(p) => p,
        };
        match parse_members_rest(s, k) {
            None => {
                return None;
            },
            Some((mut kvs, e)) => {
                let ghost kvs_old = kvs@;
                let ghost kv_g = kv;
                kvs.insert(0, kv);
                proof {
                    let v0 = match kv_g.1 {
                        Some(v) => Some(v@),
                        None => None::<Seq<char>>,
                    };
                    assert(kv_views(kvs@) =~= seq![(kv_g.0@, v0)] + kv_views(kvs_old));
                }
                (kvs, e)
            },
        }
    };
    let f = skip_ws(s, e);
    if f == s.len() {
        Some(kvs)
    } else {
        None
    }
}

} // verus!
