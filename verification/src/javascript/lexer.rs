//! The lexical scanner: white space, comments, identifiers and literals,
//! each read from a place in the text.
//!
//! Every reader takes the text and the place to start at, and gives back what
//! it read and the place where it stopped, or the error. None of them changes
//! anything, so a caller that gets an error can try another reader at the
//! same place.

use vstd::prelude::*;
use crate::javascript::error::{failure, ParseError, ParseErrorKind};
use crate::javascript::grammar;
use crate::javascript::grammar::{Number, Reading};
use crate::javascript::ast::{NullLiteral, NumberLiteral, RegexLiteral, TemplateElement};
use crate::javascript::unicode::{satisfy_id_continue, satisfy_id_start};
use crate::text::{append_chars, char_from_code, from_chars, same_text, starts_with_at};

verus! {

/// Whether what a reader returned is what the grammar says of the text.
pub open spec fn agrees<T>(r: Result<(T, usize), ParseError>, g: Reading<T>) -> bool {
    match r {
        Ok((v, end)) => g == Ok::<(T, int), ParseError>((v, end as int)),
        Err(e) => g == Err::<(T, int), ParseError>(e),
    }
}

/// The same for a reader of text, whose value is compared by its characters.
pub open spec fn agrees_text(r: Result<(String, usize), ParseError>, g: Reading<Seq<char>>)
    -> bool {
    match r {
        Ok((v, end)) => g == Ok::<(Seq<char>, int), ParseError>((v@, end as int)),
        Err(e) => g == Err::<(Seq<char>, int), ParseError>(e),
    }
}

/// Whether a reader that started at `pos` stopped inside the text and not
/// before `pos`.
pub open spec fn within<T>(r: Result<(T, usize), ParseError>, pos: usize, len: nat) -> bool {
    match r {
        Ok((_, end)) => pos <= end <= len,
        Err(_) => true,
    }
}

pub(crate) fn fail<T>(kind: ParseErrorKind, pos: usize) -> (r: Result<T, ParseError>)
    ensures
        r == Err::<T, ParseError>(failure(kind, pos as int)),
{
    Err(ParseError { kind, position: pos })
}

pub fn is_whitespace(c: char) -> (r: bool)
    ensures
        r == grammar::is_whitespace(c),
{
    ('\u{9}' <= c && c <= '\u{d}') || c == ' ' || c == '\u{85}' || c == '\u{a0}' || c
        == '\u{1680}' || ('\u{2000}' <= c && c <= '\u{200a}') || c == '\u{2028}' || c
        == '\u{2029}' || c == '\u{202f}' || c == '\u{205f}' || c == '\u{3000}'
}

pub fn is_line_terminator(c: char) -> (r: bool)
    ensures
        r == grammar::is_line_terminator(c),
{
    c == '\n' || c == '\r' || c == '\u{2028}' || c == '\u{2029}'
}

/// Skips white space: the place of the first character at or after `pos`
/// that is none, or the end of the text.
pub fn whitespace(s: &[char], pos: usize) -> (end: usize)
    ensures
        end == grammar::whitespace_end(s@, pos as int),
        pos <= s@.len() ==> pos <= end <= s@.len(),
{
    let mut i: usize = pos;
    while i < s.len() && is_whitespace(s[i])
        invariant
            pos <= i,
            pos <= s@.len() ==> i <= s@.len(),
            grammar::whitespace_end(s@, pos as int) == grammar::whitespace_end(s@, i as int),
        decreases s@.len() - i,
    {
        i += 1;
    }
    i
}

/// Reads one line terminator.
pub fn line_terminator(s: &[char], pos: usize) -> (r: Option<usize>)
    ensures
        match r {
            Some(end) => grammar::line_terminator(s@, pos as int) == Some(end as int) && pos < end
                <= s@.len(),
            None => grammar::line_terminator(s@, pos as int) is None,
        },
{
    if pos >= s.len() {
        None
    } else if s[pos] == '\r' && pos + 1 < s.len() && s[pos + 1] == '\n' {
        Some(pos + 2)
    } else if is_line_terminator(s[pos]) {
        Some(pos + 1)
    } else {
        None
    }
}

/// Reads a comment that runs from `/*` to the first `*/`.
pub fn block_comment(s: &[char], pos: usize) -> (r: Result<((), usize), ParseError>)
    ensures
        agrees(r, grammar::block_comment(s@, pos as int)),
        within(r, pos, s@.len()),
{
    if !(pos < s.len() && s[pos] == '/' && pos + 1 < s.len() && s[pos + 1] == '*') {
        return fail(ParseErrorKind::Comment, pos);
    }
    let mut i: usize = pos + 2;
    while s.len() - i >= 2
        invariant
            pos + 2 <= i <= s@.len(),
            grammar::char_at(s@, pos as int, '/'),
            grammar::char_at(s@, pos + 1, '*'),
            grammar::block_comment_end(s@, pos + 2) == grammar::block_comment_end(s@, i as int),
        decreases s@.len() - i,
    {
        if s[i] == '*' && s[i + 1] == '/' {
            return Ok(((), i + 2));
        }
        i += 1;
    }
    fail(ParseErrorKind::Comment, pos)
}

/// Reads a comment that runs from `//` to the end of its line.
pub fn line_comment(s: &[char], pos: usize) -> (r: Result<((), usize), ParseError>)
    ensures
        agrees(r, grammar::line_comment(s@, pos as int)),
        within(r, pos, s@.len()),
{
    if !(pos < s.len() && s[pos] == '/' && pos + 1 < s.len() && s[pos + 1] == '/') {
        return fail(ParseErrorKind::Comment, pos);
    }
    let mut i: usize = pos + 2;
    while i < s.len()
        invariant
            pos + 2 <= i <= s@.len(),
            grammar::char_at(s@, pos as int, '/'),
            grammar::char_at(s@, pos + 1, '/'),
            grammar::line_comment_end(s@, pos + 2) == grammar::line_comment_end(s@, i as int),
        decreases s@.len() - i,
    {
        if is_line_terminator(s[i]) {
            match line_terminator(s, i) {
                Some(end) => {
                    return Ok(((), end));
                },
                None => {
                    return fail(ParseErrorKind::Comment, pos);
                },
            }
        }
        i += 1;
    }
    fail(ParseErrorKind::Comment, pos)
}

/// Reads a comment of either form.
pub fn comment(s: &[char], pos: usize) -> (r: Result<((), usize), ParseError>)
    ensures
        agrees(r, grammar::comment(s@, pos as int)),
        within(r, pos, s@.len()),
{
    match block_comment(s, pos) {
        Ok(r) => Ok(r),
        Err(_) => line_comment(s, pos),
    }
}

/// Skips what separates tokens: white space and comments, as many as there
/// are. The result is the place of the first character that belongs to
/// neither.
pub fn skip_tokens(s: &[char], pos: usize) -> (end: usize)
    ensures
        end == grammar::skip_tokens(s@, pos as int),
        pos <= s@.len() ==> pos <= end <= s@.len(),
{
    let mut i: usize = pos;
    while i < s.len()
        invariant
            pos <= i,
            pos <= s@.len() ==> i <= s@.len(),
            grammar::skip_tokens(s@, pos as int) == grammar::skip_tokens(s@, i as int),
        decreases s@.len() - i,
    {
        if is_whitespace(s[i]) {
            i += 1;
        } else {
            match comment(s, i) {
                Ok((_, end)) => {
                    if end > i {
                        i = end;
                    } else {
                        return i;
                    }
                },
                Err(_) => {
                    return i;
                },
            }
        }
    }
    i
}

// ---------------------------------------------------------------------------
// Digits
// ---------------------------------------------------------------------------

pub fn is_hex_digit(c: char) -> (r: bool)
    ensures
        r == grammar::is_hex_digit(c),
{
    ('0' <= c && c <= '9') || ('a' <= c && c <= 'f') || ('A' <= c && c <= 'F')
}

/// What a hexadecimal digit counts for.
pub(crate) fn digit_value(c: char) -> (v: u32)
    requires
        grammar::is_hex_digit(c),
    ensures
        v == grammar::digit_value(c),
        v < 16,
{
    if '0' <= c && c <= '9' {
        c as u32 - 48
    } else if 'a' <= c && c <= 'f' {
        c as u32 - 87
    } else {
        c as u32 - 55
    }
}

/// Whether `c` is a digit of the base `radix`.
pub fn is_digit(c: char, radix: u32) -> (r: bool)
    ensures
        r == grammar::is_digit(c, radix as int),
{
    is_hex_digit(c) && digit_value(c) < radix
}

/// The place where the digits of base `radix` that start at `pos` end.
pub fn digits_end(s: &[char], pos: usize, radix: u32) -> (end: usize)
    ensures
        end == grammar::digits_end(s@, pos as int, radix as int),
        pos <= end,
        pos <= s@.len() ==> end <= s@.len(),
        forall|i: int| pos <= i < end ==> grammar::is_digit(#[trigger] s@[i], radix as int),
{
    let mut i: usize = pos;
    while i < s.len() && is_digit(s[i], radix)
        invariant
            pos <= i,
            pos <= s@.len() ==> i <= s@.len(),
            grammar::digits_end(s@, pos as int, radix as int) == grammar::digits_end(
                s@,
                i as int,
                radix as int,
            ),
            forall|j: int| pos <= j < i ==> grammar::is_digit(#[trigger] s@[j], radix as int),
        decreases s@.len() - i,
    {
        i += 1;
    }
    i
}

/// The place where at most `max` hexadecimal digits that start at `pos` end.
pub fn hex_end(s: &[char], pos: usize, max: usize) -> (end: usize)
    ensures
        end == grammar::hex_end(s@, pos as int, max as int),
        pos <= end <= pos + max,
        pos <= s@.len() ==> end <= s@.len(),
        forall|i: int| pos <= i < end ==> grammar::is_digit(#[trigger] s@[i], 16),
{
    let end = digits_end(s, pos, 16);
    if end - pos < max {
        end
    } else {
        pos + max
    }
}

/// Adding digits never makes the number smaller.
pub proof fn lemma_digits_fold_grows(init: nat, s: Seq<char>, from: int, mid: int, to: int, radix: nat)
    requires
        radix >= 1,
        0 <= from <= mid <= to <= s.len(),
        forall|i: int| from <= i < to ==> grammar::is_hex_digit(#[trigger] s[i]),
    ensures
        grammar::digits_fold(init, s, from, mid, radix) <= grammar::digits_fold(
            init,
            s,
            from,
            to,
            radix,
        ),
        init <= grammar::digits_fold(init, s, from, mid, radix),
    decreases to - from,
{
    if mid > from {
        lemma_digits_fold_grows(init, s, from, mid - 1, mid - 1, radix);
        let before = grammar::digits_fold(init, s, from, mid - 1, radix);
        assert(before * radix >= before) by (nonlinear_arith)
            requires
                radix >= 1,
        ;
        assert(grammar::is_hex_digit(s[mid - 1]));
    }
    if to > mid {
        lemma_digits_fold_grows(init, s, from, mid, to - 1, radix);
        let before = grammar::digits_fold(init, s, from, to - 1, radix);
        assert(before * radix >= before) by (nonlinear_arith)
            requires
                radix >= 1,
        ;
        assert(grammar::is_hex_digit(s[to - 1]));
    }
}

/// The number that the digits in `s[from..to]` add to `init`, if it fits in
/// 64 bits.
pub(crate) fn digits_fold(init: u64, s: &[char], from: usize, to: usize, radix: u32) -> (r: Option<u64>)
    requires
        1 <= radix <= 16,
        from <= to <= s@.len(),
        forall|i: int| from <= i < to ==> grammar::is_digit(#[trigger] s@[i], radix as int),
    ensures
        match r {
            Some(v) => v == grammar::digits_fold(init as nat, s@, from as int, to as int, radix as nat),
            None => grammar::digits_fold(init as nat, s@, from as int, to as int, radix as nat)
                > u64::MAX,
        },
{
    let mut acc: u64 = init;
    let mut i: usize = from;
    while i < to
        invariant
            1 <= radix <= 16,
            from <= i <= to <= s@.len(),
            forall|j: int| from <= j < to ==> grammar::is_digit(#[trigger] s@[j], radix as int),
            acc == grammar::digits_fold(init as nat, s@, from as int, i as int, radix as nat),
        decreases to - i,
    {
        assert(grammar::is_digit(s@[i as int], radix as int));
        let d = digit_value(s[i]);
        assert(acc as u128 * radix as u128 <= 0xffff_ffff_ffff_ffff * 16) by (nonlinear_arith)
            requires
                acc <= 0xffff_ffff_ffff_ffff,
                radix <= 16,
        ;
        let wide: u128 = acc as u128 * radix as u128 + d as u128;
        assert(wide == grammar::digits_fold(
            init as nat,
            s@,
            from as int,
            i + 1,
            radix as nat,
        ));
        if wide > u64::MAX as u128 {
            proof {
                lemma_digits_fold_grows(init as nat, s@, from as int, i + 1, to as int, radix as nat);
            }
            return None;
        }
        acc = wide as u64;
        i += 1;
    }
    Some(acc)
}

// ---------------------------------------------------------------------------
// Escape sequences
// ---------------------------------------------------------------------------

/// Reads `\u` with one to four hexadecimal digits, or `\u{`, hexadecimal
/// digits and `}`.
pub fn unicode_escape_sequence(s: &[char], pos: usize) -> (r: Result<(char, usize), ParseError>)
    ensures
        agrees(r, grammar::unicode_escape_sequence(s@, pos as int)),
        within(r, pos, s@.len()),
        r is Ok ==> pos < r->Ok_0.1,
{
    if !(pos < s.len() && s[pos] == '\\' && pos + 1 < s.len() && s[pos + 1] == 'u') {
        return fail(ParseErrorKind::Escape, pos);
    }
    let braced = pos + 2 < s.len() && s[pos + 2] == '{';
    let start = if braced { pos + 3 } else { pos + 2 };
    let stop = if braced { digits_end(s, start, 16) } else { hex_end(s, start, 4) };
    if stop == start || (braced && !(stop < s.len() && s[stop] == '}')) {
        return fail(ParseErrorKind::Escape, pos);
    }
    let end = if braced { stop + 1 } else { stop };
    match digits_fold(0, s, start, stop, 16) {
        None => fail(ParseErrorKind::CodePoint, pos),
        Some(code) => {
            if code > 0x10FFFF {
                return fail(ParseErrorKind::CodePoint, pos);
            }
            match char_from_code(code as u32) {
                Some(c) => Ok((c, end)),
                None => fail(ParseErrorKind::CodePoint, pos),
            }
        },
    }
}

/// Reads `\x` with two hexadecimal digits.
pub fn hex_escape_sequence(s: &[char], pos: usize) -> (r: Result<(char, usize), ParseError>)
    ensures
        agrees(r, grammar::hex_escape_sequence(s@, pos as int)),
        within(r, pos, s@.len()),
        r is Ok ==> pos < r->Ok_0.1,
{
    if !(pos < s.len() && s[pos] == '\\' && pos + 1 < s.len() && s[pos + 1] == 'x') {
        return fail(ParseErrorKind::Escape, pos);
    }
    let stop = hex_end(s, pos + 2, 2);
    if stop - pos != 4 {
        return fail(ParseErrorKind::Escape, pos);
    }
    proof {
        reveal_with_fuel(grammar::digits_fold, 3);
        assert(grammar::is_digit(s@[pos + 2], 16));
        assert(grammar::is_digit(s@[pos + 3], 16));
        assert(grammar::digits_fold(0, s@, pos + 2, stop as int, 16) <= 255);
    }
    match digits_fold(0, s, pos + 2, stop, 16) {
        Some(code) => match char_from_code(code as u32) {
            Some(c) => Ok((c, stop)),
            None => fail(ParseErrorKind::Escape, pos),
        },
        None => fail(ParseErrorKind::Escape, pos),
    }
}

/// What the character after a backslash stands for.
pub fn character_escape(c: char) -> (r: char)
    ensures
        r == grammar::character_escape(c),
{
    if c == 'b' {
        '\u{8}'
    } else if c == 'f' {
        '\u{c}'
    } else if c == 'n' {
        '\n'
    } else if c == 'r' {
        '\r'
    } else if c == 't' {
        '\t'
    } else if c == 'v' {
        '\u{b}'
    } else {
        c
    }
}

/// Reads a backslash and what it introduces, and gives the character that is
/// meant. The text of the escape is `s[pos..end]`.
pub fn escape_sequence(s: &[char], pos: usize) -> (r: Result<(char, usize), ParseError>)
    ensures
        agrees(r, grammar::escape_sequence(s@, pos as int)),
        within(r, pos, s@.len()),
        r is Ok ==> pos < r->Ok_0.1,
{
    if !(pos < s.len() && s[pos] == '\\' && pos + 1 < s.len()) {
        return fail(ParseErrorKind::Escape, pos);
    }
    let c = s[pos + 1];
    if c == 'x' {
        hex_escape_sequence(s, pos)
    } else if c == 'u' {
        unicode_escape_sequence(s, pos)
    } else if is_digit(c, 10) || is_line_terminator(c) {
        fail(ParseErrorKind::Escape, pos)
    } else {
        Ok((character_escape(c), pos + 2))
    }
}

// ---------------------------------------------------------------------------
// Identifiers
// ---------------------------------------------------------------------------

/// Reads one character of an identifier, written as itself or as a `\u`
/// escape; `first` says whether it is to begin the identifier.
pub fn identifier_char(s: &[char], pos: usize, first: bool) -> (r: Option<(char, usize)>)
    ensures
        match r {
            Some((c, end)) => grammar::identifier_char(s@, pos as int, first) == Some(
                (c, end as int),
            ) && pos < end <= s@.len(),
            None => grammar::identifier_char(s@, pos as int, first) is None,
        },
{
    if pos >= s.len() {
        return None;
    }
    let (c, end) = if s[pos] == '\\' {
        match unicode_escape_sequence(s, pos) {
            Ok(read) => read,
            Err(_) => {
                return None;
            },
        }
    } else {
        (s[pos], pos + 1)
    };
    let fits = if first {
        satisfy_id_start(c)
    } else {
        satisfy_id_continue(c)
    };
    if fits {
        Some((c, end))
    } else {
        None
    }
}

/// Reads the first character of an identifier.
pub fn unicode_id_start(s: &[char], pos: usize) -> (r: Option<(char, usize)>)
    ensures
        match r {
            Some((c, end)) => grammar::identifier_char(s@, pos as int, true) == Some(
                (c, end as int),
            ) && pos < end <= s@.len(),
            None => grammar::identifier_char(s@, pos as int, true) is None,
        },
{
    identifier_char(s, pos, true)
}

/// Reads a character that continues an identifier.
pub fn unicode_id_continue(s: &[char], pos: usize) -> (r: Option<(char, usize)>)
    ensures
        match r {
            Some((c, end)) => grammar::identifier_char(s@, pos as int, false) == Some(
                (c, end as int),
            ) && pos < end <= s@.len(),
            None => grammar::identifier_char(s@, pos as int, false) is None,
        },
{
    identifier_char(s, pos, false)
}

/// Whether `w` is a word that no identifier can be.
pub fn is_reserved_word(w: &[char]) -> (r: bool)
    ensures
        r == grammar::is_reserved_word(w@),
{
    same_text(w, "await") || same_text(w, "break") || same_text(w, "case") || same_text(w, "catch")
        || same_text(w, "class") || same_text(w, "const") || same_text(w, "continue") || same_text(
        w,
        "debugger",
    ) || same_text(w, "default") || same_text(w, "delete") || same_text(w, "do") || same_text(
        w,
        "else",
    ) || same_text(w, "export") || same_text(w, "extends") || same_text(w, "finally")
        || same_text(w, "for") || same_text(w, "function") || same_text(w, "if") || same_text(
        w,
        "import",
    ) || same_text(w, "in") || same_text(w, "instanceof") || same_text(w, "new") || same_text(
        w,
        "return",
    ) || same_text(w, "super") || same_text(w, "switch") || same_text(w, "this") || same_text(
        w,
        "throw",
    ) || same_text(w, "try") || same_text(w, "typeof") || same_text(w, "var") || same_text(
        w,
        "void",
    ) || same_text(w, "while") || same_text(w, "with") || same_text(w, "yield") || same_text(
        w,
        "enum",
    ) || same_text(w, "implements") || same_text(w, "package") || same_text(w, "protected")
        || same_text(w, "interface") || same_text(w, "public") || same_text(w, "private")
        || same_text(w, "null") || same_text(w, "true") || same_text(w, "false")
}

/// Reads an identifier and gives its name, escapes replaced by the
/// characters they stand for. A reserved word is refused.
pub fn identifier(s: &[char], pos: usize) -> (r: Result<(String, usize), ParseError>)
    ensures
        agrees_text(r, grammar::identifier(s@, pos as int)),
        within(r, pos, s@.len()),
        r is Ok ==> pos < r->Ok_0.1,
{
    let (first, start) = match unicode_id_start(s, pos) {
        Some(read) => read,
        None => {
            return fail(ParseErrorKind::Identifier, pos);
        },
    };
    let mut name: Vec<char> = Vec::new();
    name.push(first);
    let mut i: usize = start;
    let mut more = true;
    while more
        invariant
            pos < start <= i <= s@.len(),
            seq![first] + grammar::identifier_rest(s@, start as int).0 == name@
                + grammar::identifier_rest(s@, i as int).0,
            grammar::identifier_rest(s@, start as int).1 == grammar::identifier_rest(
                s@,
                i as int,
            ).1,
            !more ==> grammar::identifier_rest(s@, i as int) == (Seq::<char>::empty(), i as int),
        decreases s@.len() - i + (if more { 1int } else { 0int }),
    {
        match unicode_id_continue(s, i) {
            Some((c, end)) => {
                proof {
                    assert(name@.push(c) + grammar::identifier_rest(s@, end as int).0 =~= name@ + (
                    seq![c] + grammar::identifier_rest(s@, end as int).0));
                }
                name.push(c);
                i = end;
            },
            None => {
                more = false;
            },
        }
    }
    proof {
        assert(name@ + Seq::<char>::empty() =~= name@);
        assert(name@.subrange(0, name@.len() as int) =~= name@);
    }
    if is_reserved_word(&name) {
        fail(ParseErrorKind::ReservedWord, pos)
    } else {
        Ok((from_chars(&name, 0, name.len()), i))
    }
}

// ---------------------------------------------------------------------------
// Literals
// ---------------------------------------------------------------------------

/// Reads `null`.
pub fn null_literal(s: &[char], pos: usize) -> (r: Result<(NullLiteral, usize), ParseError>)
    ensures
        agrees(r, grammar::null_literal(s@, pos as int)),
        within(r, pos, s@.len()),
{
    proof {
        reveal_strlit("null");
    }
    if starts_with_at(s, pos, "null") {
        Ok((NullLiteral, pos + 4))
    } else {
        fail(ParseErrorKind::Keyword, pos)
    }
}

/// Reads `true` or `false`.
pub fn boolean_literal(s: &[char], pos: usize) -> (r: Result<(bool, usize), ParseError>)
    ensures
        agrees(r, grammar::boolean_literal(s@, pos as int)),
        within(r, pos, s@.len()),
{
    proof {
        reveal_strlit("true");
        reveal_strlit("false");
    }
    if starts_with_at(s, pos, "true") {
        Ok((true, pos + 4))
    } else if starts_with_at(s, pos, "false") {
        Ok((false, pos + 5))
    } else {
        fail(ParseErrorKind::Keyword, pos)
    }
}

/// Whether what a reader of numbers returned is what the grammar says.
pub open spec fn agrees_number(r: Result<(NumberLiteral, usize), ParseError>, g: Reading<Number>)
    -> bool {
    match r {
        Ok((n, end)) => g == Ok::<(Number, int), ParseError>((n@, end as int)),
        Err(e) => g == Err::<(Number, int), ParseError>(e),
    }
}

/// The base that the prefix at `pos` announces.
pub fn radix_prefix(s: &[char], pos: usize) -> (r: Option<u32>)
    ensures
        match r {
            Some(radix) => grammar::radix_prefix(s@, pos as int) == Some(radix as nat) && (radix
                == 2 || radix == 8 || radix == 16) && pos + 2 < s@.len() <= usize::MAX,
            None => grammar::radix_prefix(s@, pos as int) is None,
        },
{
    if !(pos < s.len() && s[pos] == '0' && s.len() - pos > 2) {
        return None;
    }
    let mark = s[pos + 1];
    let digit = s[pos + 2];
    if (mark == 'b' || mark == 'B') && is_digit(digit, 2) {
        Some(2)
    } else if (mark == 'o' || mark == 'O') && is_digit(digit, 8) {
        Some(8)
    } else if (mark == 'x' || mark == 'X') && is_digit(digit, 16) {
        Some(16)
    } else {
        None
    }
}

/// Reads a whole number written with a prefix of the base `radix`.
pub fn radix_integer_literal(s: &[char], pos: usize, radix: u32) -> (r: Result<
    (NumberLiteral, usize),
    ParseError,
>)
    ensures
        agrees_number(r, grammar::radix_integer_literal(s@, pos as int, radix as nat)),
        within(r, pos, s@.len()),
{
    match radix_prefix(s, pos) {
        Some(found) => {
            if found != radix {
                return fail(ParseErrorKind::Number, pos);
            }
            let end = digits_end(s, pos + 2, radix);
            let literal = NumberLiteral {
                radix,
                digits: from_chars(s, pos + 2, end),
                fraction: 0,
                exponent_negative: false,
                exponent: String::new(),
            };
            Ok((literal, end))
        },
        None => fail(ParseErrorKind::Number, pos),
    }
}

/// Reads `0b` or `0B` and binary digits.
pub fn binary_integer_literal(s: &[char], pos: usize) -> (r: Result<
    (NumberLiteral, usize),
    ParseError,
>)
    ensures
        agrees_number(r, grammar::radix_integer_literal(s@, pos as int, 2)),
        within(r, pos, s@.len()),
{
    radix_integer_literal(s, pos, 2)
}

/// Reads `0o` or `0O` and octal digits.
pub fn octal_integer_literal(s: &[char], pos: usize) -> (r: Result<
    (NumberLiteral, usize),
    ParseError,
>)
    ensures
        agrees_number(r, grammar::radix_integer_literal(s@, pos as int, 8)),
        within(r, pos, s@.len()),
{
    radix_integer_literal(s, pos, 8)
}

/// Reads `0x` or `0X` and hexadecimal digits.
pub fn hex_integer_literal(s: &[char], pos: usize) -> (r: Result<(NumberLiteral, usize), ParseError>)
    ensures
        agrees_number(r, grammar::radix_integer_literal(s@, pos as int, 16)),
        within(r, pos, s@.len()),
{
    radix_integer_literal(s, pos, 16)
}

/// Finds where the whole part of a decimal number ends; nothing where a zero
/// is followed by a digit.
pub fn decimal_integer_literal(s: &[char], pos: usize) -> (r: Option<usize>)
    ensures
        r == match grammar::decimal_integer_end(s@, pos as int) {
            Some(end) => Some(end as usize),
            None => None,
        },
        match r {
            Some(end) => grammar::decimal_integer_end(s@, pos as int) == Some(end as int) && pos
                <= end && (pos <= s@.len() ==> end <= s@.len()) && (forall|i: int|
                pos <= i < end ==> grammar::is_digit(#[trigger] s@[i], 10)),
            None => true,
        },
{
    if pos < s.len() && s[pos] == '0' {
        if pos + 1 < s.len() && is_digit(s[pos + 1], 10) {
            None
        } else {
            Some(pos + 1)
        }
    } else {
        Some(digits_end(s, pos, 10))
    }
}

/// Reads an exponent: `e` or `E`, a sign or none, and digits. Gives
/// whether the sign is a minus, and the digits.
pub fn exponent_part(s: &[char], pos: usize) -> (r: Result<((bool, String), usize), ParseError>)
    ensures
        match r {
            Ok(((negative, digits), end)) => grammar::exponent_part(s@, pos as int) == Ok::<
                ((bool, Seq<char>), int),
                ParseError,
            >(((negative, digits@), end as int)),
            Err(e) => grammar::exponent_part(s@, pos as int) == Err::<
                ((bool, Seq<char>), int),
                ParseError,
            >(e),
        },
        within(r, pos, s@.len()),
{
    if !(pos < s.len() && (s[pos] == 'e' || s[pos] == 'E')) {
        return fail(ParseErrorKind::Number, pos);
    }
    let negative = pos + 1 < s.len() && s[pos + 1] == '-';
    let signed = negative || (pos + 1 < s.len() && s[pos + 1] == '+');
    let start = if signed { pos + 2 } else { pos + 1 };
    let end = digits_end(s, start, 10);
    if end == start {
        return fail(ParseErrorKind::Number, pos);
    }
    Ok(((negative, from_chars(s, start, end)), end))
}

/// Reads a decimal number.
pub fn decimal_literal(s: &[char], pos: usize) -> (r: Result<(NumberLiteral, usize), ParseError>)
    ensures
        agrees_number(r, grammar::decimal_literal(s@, pos as int)),
        within(r, pos, s@.len()),
{
    if pos > s.len() {
        return fail(ParseErrorKind::Number, pos);
    }
    let whole_end = match decimal_integer_literal(s, pos) {
        Some(end) => end,
        None => {
            return fail(ParseErrorKind::Number, pos);
        },
    };
    let frac_end = if whole_end < s.len() && s[whole_end] == '.' {
        digits_end(s, whole_end + 1, 10)
    } else {
        whole_end
    };
    let fraction: usize = if frac_end > whole_end { frac_end - whole_end - 1 } else { 0 };
    if whole_end == pos && fraction == 0 {
        return fail(ParseErrorKind::Number, pos);
    }
    let mut digits: Vec<char> = Vec::new();
    append_chars(&mut digits, s, pos, whole_end);
    if frac_end > whole_end {
        append_chars(&mut digits, s, whole_end + 1, frac_end);
    }
    proof {
        assert(digits@ =~= grammar::decimal_digits(
            s@,
            pos as int,
            whole_end as int,
            frac_end as int,
        ));
        assert(digits@.subrange(0, digits@.len() as int) =~= digits@);
    }
    let digits = from_chars(&digits, 0, digits.len());
    if frac_end < s.len() && (s[frac_end] == 'e' || s[frac_end] == 'E') {
        match exponent_part(s, frac_end) {
            Err(e) => Err(e),
            Ok(((exponent_negative, exponent), end)) => Ok(
                (NumberLiteral { radix: 10, digits, fraction, exponent_negative, exponent }, end),
            ),
        }
    } else {
        Ok(
            (
                NumberLiteral {
                    radix: 10,
                    digits,
                    fraction,
                    exponent_negative: false,
                    exponent: String::new(),
                },
                frac_end,
            ),
        )
    }
}

/// Reads a number in any of its four forms.
pub fn numeric_literal(s: &[char], pos: usize) -> (r: Result<(NumberLiteral, usize), ParseError>)
    ensures
        agrees_number(r, grammar::numeric_literal(s@, pos as int)),
        within(r, pos, s@.len()),
{
    match radix_prefix(s, pos) {
        Some(radix) => radix_integer_literal(s, pos, radix),
        None => decimal_literal(s, pos),
    }
}

// ---------------------------------------------------------------------------
// Strings
// ---------------------------------------------------------------------------

/// A reading of text with `acc` put before what was read.
pub open spec fn after(acc: Seq<char>, g: Reading<Seq<char>>) -> Reading<Seq<char>> {
    match g {
        Ok((rest, end)) => Ok((acc + rest, end)),
        Err(e) => Err(e),
    }
}

/// Reads a string between two `quote` characters and gives its value.
pub fn quoted_string(s: &[char], pos: usize, quote: char) -> (r: Result<(String, usize), ParseError>)
    ensures
        agrees_text(r, grammar::quoted_string(s@, pos as int, quote)),
        within(r, pos, s@.len()),
{
    if !(pos < s.len() && s[pos] == quote) {
        return fail(ParseErrorKind::String, pos);
    }
    let mut value: Vec<char> = Vec::new();
    let mut i: usize = pos + 1;
    proof {
        assert(Seq::<char>::empty() + grammar::string_characters(s@, i as int, quote)->Ok_0.0
            =~= grammar::string_characters(s@, i as int, quote)->Ok_0.0);
    }
    while i < s.len()
        invariant
            pos < i <= s@.len(),
            grammar::char_at(s@, pos as int, quote),
            grammar::string_characters(s@, pos + 1, quote) == after(
                value@,
                grammar::string_characters(s@, i as int, quote),
            ),
        decreases s@.len() - i,
    {
        let c = s[i];
        if c == quote {
            proof {
                assert(value@ + Seq::<char>::empty() =~= value@);
                assert(value@.subrange(0, value@.len() as int) =~= value@);
            }
            return Ok((from_chars(&value, 0, value.len()), i + 1));
        }
        if is_line_terminator(c) {
            return fail(ParseErrorKind::String, i);
        }
        let (read, next) = if c == '\\' {
            match escape_sequence(s, i) {
                Ok(read) => read,
                Err(e) => {
                    return Err(e);
                },
            }
        } else {
            (c, i + 1)
        };
        proof {
            let rest = grammar::string_characters(s@, next as int, quote);
            if rest is Ok {
                assert(value@.push(read) + rest->Ok_0.0 =~= value@ + (seq![read] + rest->Ok_0.0));
            }
        }
        value.push(read);
        i = next;
    }
    fail(ParseErrorKind::String, i)
}

/// Reads a string between double quotes.
pub fn double_quote_string(s: &[char], pos: usize) -> (r: Result<(String, usize), ParseError>)
    ensures
        agrees_text(r, grammar::quoted_string(s@, pos as int, '"')),
        within(r, pos, s@.len()),
{
    quoted_string(s, pos, '"')
}

/// Reads a string between single quotes.
pub fn single_quote_string(s: &[char], pos: usize) -> (r: Result<(String, usize), ParseError>)
    ensures
        agrees_text(r, grammar::quoted_string(s@, pos as int, '\'')),
        within(r, pos, s@.len()),
{
    quoted_string(s, pos, '\'')
}

/// Reads a string literal and gives its value, escape sequences replaced by
/// the characters they stand for.
pub fn string_literal(s: &[char], pos: usize) -> (r: Result<(String, usize), ParseError>)
    ensures
        agrees_text(r, grammar::string_literal(s@, pos as int)),
        within(r, pos, s@.len()),
{
    if pos < s.len() && s[pos] == '"' {
        double_quote_string(s, pos)
    } else {
        single_quote_string(s, pos)
    }
}

// ---------------------------------------------------------------------------
// Regular expressions
// ---------------------------------------------------------------------------

/// Whether what a reader of places returned is what the grammar says.
pub open spec fn agrees_place(r: Option<usize>, g: Option<int>, pos: usize, len: nat) -> bool {
    match r {
        Some(end) => g == Some(end as int) && pos < end <= len,
        None => g is None,
    }
}

/// Reads a backslash and the character it escapes.
pub fn regex_backslash_sequence(s: &[char], pos: usize) -> (r: Option<usize>)
    ensures
        agrees_place(r, grammar::regex_backslash_sequence(s@, pos as int), pos, s@.len()),
{
    if pos < s.len() && s[pos] == '\\' && pos + 1 < s.len() && !is_line_terminator(s[pos + 1]) {
        Some(pos + 2)
    } else {
        None
    }
}

/// Reads a character class, from `[` to the `]` that closes it.
pub fn regex_class(s: &[char], pos: usize) -> (r: Option<usize>)
    ensures
        agrees_place(r, grammar::regex_class(s@, pos as int), pos, s@.len()),
{
    if !(pos < s.len() && s[pos] == '[') {
        return None;
    }
    let mut i: usize = pos + 1;
    while i < s.len()
        invariant
            pos < i <= s@.len(),
            grammar::regex_class_end(s@, pos + 1) == grammar::regex_class_end(s@, i as int),
            grammar::char_at(s@, pos as int, '['),
        decreases s@.len() - i,
    {
        if s[i] == ']' {
            return Some(i + 1);
        } else if s[i] == '\\' {
            match regex_backslash_sequence(s, i) {
                Some(end) => {
                    i = end;
                },
                None => {
                    return None;
                },
            }
        } else {
            i += 1;
        }
    }
    None
}

/// Reads one unit of a pattern; `first` says whether it opens the pattern.
pub fn regex_char(s: &[char], pos: usize, first: bool) -> (r: Option<usize>)
    ensures
        agrees_place(r, grammar::regex_char(s@, pos as int, first), pos, s@.len()),
{
    if pos >= s.len() {
        None
    } else if s[pos] == '\\' {
        regex_backslash_sequence(s, pos)
    } else if s[pos] == '[' {
        regex_class(s, pos)
    } else if s[pos] == '/' || is_line_terminator(s[pos]) || (first && s[pos] == '*') {
        None
    } else {
        Some(pos + 1)
    }
}

/// Reads the first unit of a pattern.
pub fn regex_first_char(s: &[char], pos: usize) -> (r: Option<usize>)
    ensures
        agrees_place(r, grammar::regex_char(s@, pos as int, true), pos, s@.len()),
{
    regex_char(s, pos, true)
}

/// Reads a pattern: one unit or more.
pub fn regex_body(s: &[char], pos: usize) -> (r: Option<usize>)
    ensures
        agrees_place(r, grammar::regex_body(s@, pos as int), pos, s@.len()),
{
    let mut i: usize = match regex_first_char(s, pos) {
        Some(end) => end,
        None => {
            return None;
        },
    };
    let ghost start = i;
    let mut more = true;
    while more
        invariant
            pos < start <= i <= s@.len(),
            grammar::regex_chars_end(s@, start as int) == grammar::regex_chars_end(s@, i as int),
            !more ==> grammar::regex_chars_end(s@, i as int) == i,
        decreases s@.len() - i + (if more { 1int } else { 0int }),
    {
        match regex_char(s, i, false) {
            Some(end) => {
                i = end;
            },
            None => {
                more = false;
            },
        }
    }
    Some(i)
}

/// Reads a regular expression literal: the pattern between the slashes, as
/// it is written, and the flags that follow.
pub fn regex_literal(s: &[char], pos: usize) -> (r: Result<(RegexLiteral, usize), ParseError>)
    ensures
        match r {
            Ok((lit, end)) => grammar::regex_literal(s@, pos as int) == Ok::<
                ((Seq<char>, Seq<char>), int),
                ParseError,
            >(((lit.pattern@, lit.flags@), end as int)),
            Err(e) => grammar::regex_literal(s@, pos as int) == Err::<
                ((Seq<char>, Seq<char>), int),
                ParseError,
            >(e),
        },
        within(r, pos, s@.len()),
{
    if !(pos < s.len() && s[pos] == '/') {
        return fail(ParseErrorKind::Regex, pos);
    }
    let close = match regex_body(s, pos + 1) {
        Some(end) => end,
        None => {
            return fail(ParseErrorKind::Regex, pos);
        },
    };
    if !(close < s.len() && s[close] == '/') {
        return fail(ParseErrorKind::Regex, pos);
    }
    let mut i: usize = close + 1;
    while i < s.len() && satisfy_id_continue(s[i])
        invariant
            close < i <= s@.len(),
            grammar::flags_end(s@, close + 1) == grammar::flags_end(s@, i as int),
        decreases s@.len() - i,
    {
        i += 1;
    }
    let pattern = from_chars(s, pos + 1, close);
    let flags = from_chars(s, close + 1, i);
    Ok((RegexLiteral { pattern, flags }, i))
}

// ---------------------------------------------------------------------------
// Templates
// ---------------------------------------------------------------------------

/// Reads one character of template text and gives the character that is
/// meant; the text as written is `s[pos..end]`.
pub fn template_character(s: &[char], pos: usize) -> (r: Option<(char, usize)>)
    ensures
        match r {
            Some((c, end)) => grammar::template_character(s@, pos as int) == Some((c, end as int))
                && pos < end <= s@.len(),
            None => grammar::template_character(s@, pos as int) is None,
        },
{
    if pos >= s.len() {
        None
    } else if s[pos] == '$' {
        if pos + 1 < s.len() && s[pos + 1] == '{' {
            None
        } else {
            Some(('$', pos + 1))
        }
    } else if s[pos] == '\\' {
        match escape_sequence(s, pos) {
            Ok(read) => Some(read),
            Err(_) => None,
        }
    } else if s[pos] == '`' {
        None
    } else {
        Some((s[pos], pos + 1))
    }
}

/// Whether what a reader of template pieces returned is what the grammar
/// says.
pub open spec fn agrees_template(
    r: Result<(TemplateElement, usize), ParseError>,
    g: Reading<(Seq<char>, Seq<char>)>,
) -> bool {
    match r {
        Ok((t, end)) => g == Ok::<((Seq<char>, Seq<char>), int), ParseError>(
            ((t.cooked@, t.raw@), end as int),
        ),
        Err(e) => g == Err::<((Seq<char>, Seq<char>), int), ParseError>(e),
    }
}

/// Reads a piece of a template: the character `open`, template text, and the
/// text `close`.
fn template_piece(s: &[char], pos: usize, open: char, close: &str) -> (r: Result<
    (TemplateElement, usize),
    ParseError,
>)
    ensures
        agrees_template(r, grammar::template_piece(s@, pos as int, open, close@)),
        within(r, pos, s@.len()),
{
    if !(pos < s.len() && s[pos] == open) {
        return fail(ParseErrorKind::Template, pos);
    }
    let mut cooked: Vec<char> = Vec::new();
    let mut i: usize = pos + 1;
    let mut more = true;
    proof {
        assert(cooked@ + grammar::template_characters(s@, i as int).0
            =~= grammar::template_characters(s@, i as int).0);
    }
    while more
        invariant
            pos < i <= s@.len(),
            grammar::template_characters(s@, pos + 1).0 == cooked@ + grammar::template_characters(
                s@,
                i as int,
            ).0,
            grammar::template_characters(s@, pos + 1).1 == grammar::template_characters(
                s@,
                i as int,
            ).1,
            !more ==> grammar::template_characters(s@, i as int) == (
                Seq::<char>::empty(),
                i as int,
            ),
        decreases s@.len() - i + (if more { 1int } else { 0int }),
    {
        match template_character(s, i) {
            Some((c, end)) => {
                proof {
                    assert(cooked@.push(c) + grammar::template_characters(s@, end as int).0
                        =~= cooked@ + (seq![c] + grammar::template_characters(s@, end as int).0));
                }
                cooked.push(c);
                i = end;
            },
            None => {
                more = false;
            },
        }
    }
    if !starts_with_at(s, i, close) {
        return fail(ParseErrorKind::Template, pos);
    }
    proof {
        assert(cooked@ + Seq::<char>::empty() =~= cooked@);
        assert(cooked@.subrange(0, cooked@.len() as int) =~= cooked@);
    }
    let element = TemplateElement {
        cooked: from_chars(&cooked, 0, cooked.len()),
        raw: from_chars(s, pos + 1, i),
    };
    Ok((element, i + close.unicode_len()))
}

/// Reads a whole template without substitutions.
pub fn no_substition_template(s: &[char], pos: usize) -> (r: Result<
    (TemplateElement, usize),
    ParseError,
>)
    ensures
        agrees_template(r, grammar::no_substition_template(s@, pos as int)),
        within(r, pos, s@.len()),
{
    proof {
        reveal_strlit("`");
        assert("`"@ =~= seq!['`']);
    }
    template_piece(s, pos, '`', "`")
}

/// Reads the beginning of a template, up to the first `${`.
pub fn template_head(s: &[char], pos: usize) -> (r: Result<(TemplateElement, usize), ParseError>)
    ensures
        agrees_template(r, grammar::template_head(s@, pos as int)),
        within(r, pos, s@.len()),
{
    proof {
        reveal_strlit("${");
        assert("${"@ =~= seq!['$', '{']);
    }
    template_piece(s, pos, '`', "${")
}

/// Reads the first piece of a template, whole or not.
pub fn template(s: &[char], pos: usize) -> (r: Result<(TemplateElement, usize), ParseError>)
    ensures
        agrees_template(r, grammar::template(s@, pos as int)),
        within(r, pos, s@.len()),
{
    match no_substition_template(s, pos) {
        Ok(read) => Ok(read),
        Err(_) => template_head(s, pos),
    }
}

/// Reads a piece between two substitutions.
pub fn template_middle(s: &[char], pos: usize) -> (r: Result<(TemplateElement, usize), ParseError>)
    ensures
        agrees_template(r, grammar::template_middle(s@, pos as int)),
        within(r, pos, s@.len()),
{
    proof {
        reveal_strlit("${");
        assert("${"@ =~= seq!['$', '{']);
    }
    template_piece(s, pos, '}', "${")
}

/// Reads the piece after the last substitution.
pub fn template_tail(s: &[char], pos: usize) -> (r: Result<(TemplateElement, usize), ParseError>)
    ensures
        agrees_template(r, grammar::template_tail(s@, pos as int)),
        within(r, pos, s@.len()),
{
    proof {
        reveal_strlit("");
        assert(""@ =~= Seq::<char>::empty());
    }
    template_piece(s, pos, '}', "")
}

/// Reads a piece after a substitution, be it followed by another or not.
pub fn template_substition_tail(s: &[char], pos: usize) -> (r: Result<
    (TemplateElement, usize),
    ParseError,
>)
    ensures
        agrees_template(r, grammar::template_substition_tail(s@, pos as int)),
        within(r, pos, s@.len()),
{
    match template_middle(s, pos) {
        Ok(read) => Ok(read),
        Err(_) => template_tail(s, pos),
    }
}

} // verus!
