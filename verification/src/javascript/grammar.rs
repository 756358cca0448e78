//! The lexical grammar: what each kind of token is, as a function of the
//! text and of the place where reading starts.
//!
//! A reading is either the value that was read together with the place where
//! reading stopped, or the error.

use vstd::prelude::*;
use crate::javascript::ast::{NullLiteral, NumberLiteral};
use crate::javascript::error::{failure, ParseError, ParseErrorKind};
use crate::javascript::unicode::{id_continue, id_start};
use crate::text::has_text;

verus! {

pub type Reading<T> = Result<(T, int), ParseError>;

/// Whether the character `c` stands at place `i`.
pub open spec fn char_at(s: Seq<char>, i: int, c: char) -> bool {
    0 <= i < s.len() && s[i] == c
}

// ---------------------------------------------------------------------------
// White space and comments
// ---------------------------------------------------------------------------

pub open spec fn is_line_terminator(c: char) -> bool {
    c == '\n' || c == '\r' || c == '\u{2028}' || c == '\u{2029}'
}

/// The characters with the Unicode property `White_Space`.
pub open spec fn is_whitespace(c: char) -> bool {
    ('\u{9}' <= c && c <= '\u{d}') || c == ' ' || c == '\u{85}' || c == '\u{a0}' || c
        == '\u{1680}' || ('\u{2000}' <= c && c <= '\u{200a}') || c == '\u{2028}' || c
        == '\u{2029}' || c == '\u{202f}' || c == '\u{205f}' || c == '\u{3000}'
}

/// Where the white space that starts at `pos` ends.
pub open spec fn whitespace_end(s: Seq<char>, pos: int) -> int
    decreases s.len() - pos,
{
    if 0 <= pos < s.len() && is_whitespace(s[pos]) {
        whitespace_end(s, pos + 1)
    } else {
        pos
    }
}

/// Where the line terminator at `pos` ends, if one stands there. A carriage
/// return followed by a line feed is one terminator.
pub open spec fn line_terminator(s: Seq<char>, pos: int) -> Option<int> {
    if char_at(s, pos, '\r') && char_at(s, pos + 1, '\n') {
        Some(pos + 2)
    } else if 0 <= pos < s.len() && is_line_terminator(s[pos]) {
        Some(pos + 1)
    } else {
        None
    }
}

/// Where the first `*/` at or after `pos` ends.
pub open spec fn block_comment_end(s: Seq<char>, pos: int) -> Option<int>
    decreases s.len() - pos,
{
    if pos < 0 || pos + 2 > s.len() {
        None
    } else if s[pos] == '*' && s[pos + 1] == '/' {
        Some(pos + 2)
    } else {
        block_comment_end(s, pos + 1)
    }
}

/// Where the first line terminator at or after `pos` ends.
pub open spec fn line_comment_end(s: Seq<char>, pos: int) -> Option<int>
    decreases s.len() - pos,
{
    if pos < 0 || pos >= s.len() {
        None
    } else if is_line_terminator(s[pos]) {
        line_terminator(s, pos)
    } else {
        line_comment_end(s, pos + 1)
    }
}

/// A reading of nothing that ends at `end`, or the failure to find a comment.
pub open spec fn comment_until(end: Option<int>, pos: int) -> Reading<()> {
    match end {
        Some(e) => Ok(((), e)),
        None => Err(failure(ParseErrorKind::Comment, pos)),
    }
}

/// A comment from `/*` to the first `*/` after it.
pub open spec fn block_comment(s: Seq<char>, pos: int) -> Reading<()> {
    comment_until(
        if char_at(s, pos, '/') && char_at(s, pos + 1, '*') {
            block_comment_end(s, pos + 2)
        } else {
            None
        },
        pos,
    )
}

/// A comment from `//` to the end of the first line terminator after it.
pub open spec fn line_comment(s: Seq<char>, pos: int) -> Reading<()> {
    comment_until(
        if char_at(s, pos, '/') && char_at(s, pos + 1, '/') {
            line_comment_end(s, pos + 2)
        } else {
            None
        },
        pos,
    )
}

/// A comment of either form.
pub open spec fn comment(s: Seq<char>, pos: int) -> Reading<()> {
    if block_comment(s, pos) is Ok {
        block_comment(s, pos)
    } else {
        line_comment(s, pos)
    }
}

/// Where the white space and the comments that start at `pos` end.
pub open spec fn skip_tokens(s: Seq<char>, pos: int) -> int
    decreases s.len() - pos,
{
    if pos < 0 || pos >= s.len() {
        pos
    } else if is_whitespace(s[pos]) {
        skip_tokens(s, pos + 1)
    } else {
        match comment(s, pos) {
            Ok((_, e)) => if pos < e <= s.len() {
                skip_tokens(s, e)
            } else {
                pos
            },
            Err(_) => pos,
        }
    }
}

// ---------------------------------------------------------------------------
// Digits
// ---------------------------------------------------------------------------

pub open spec fn is_hex_digit(c: char) -> bool {
    ('0' <= c && c <= '9') || ('a' <= c && c <= 'f') || ('A' <= c && c <= 'F')
}

/// What a digit counts for; letters stand for ten to fifteen.
pub open spec fn digit_value(c: char) -> int {
    if '0' <= c && c <= '9' {
        c as int - 48
    } else if 'a' <= c && c <= 'f' {
        c as int - 87
    } else {
        c as int - 55
    }
}

/// Whether `c` is a digit of the number system with base `radix`.
pub open spec fn is_digit(c: char, radix: int) -> bool {
    is_hex_digit(c) && digit_value(c) < radix
}

/// Where the digits that start at `pos` end.
pub open spec fn digits_end(s: Seq<char>, pos: int, radix: int) -> int
    decreases s.len() - pos,
{
    if 0 <= pos < s.len() && is_digit(s[pos], radix) {
        digits_end(s, pos + 1, radix)
    } else {
        pos
    }
}

/// The number that the digits in `s[from..to]` add to `init`: each digit
/// multiplies what came before by `radix`.
pub open spec fn digits_fold(init: nat, s: Seq<char>, from: int, to: int, radix: nat) -> nat
    decreases to - from,
{
    if to <= from || to > s.len() || from < 0 {
        init
    } else {
        (digits_fold(init, s, from, to - 1, radix) * radix + digit_value(s[to - 1])) as nat
    }
}

/// The number written by the digits in `s[from..to]`.
pub open spec fn digits_value(s: Seq<char>, from: int, to: int, radix: nat) -> nat {
    digits_fold(0, s, from, to, radix)
}

// ---------------------------------------------------------------------------
// Escape sequences
// ---------------------------------------------------------------------------

/// Whether `n` is the number of a character: a code point that is no surrogate.
pub open spec fn is_scalar(n: int) -> bool {
    (0 <= n <= 0xD7FF) || (0xE000 <= n <= 0x10FFFF)
}

/// The smaller of where the hexadecimal digits from `pos` end and `pos + max`.
pub open spec fn hex_end(s: Seq<char>, pos: int, max: int) -> int {
    if digits_end(s, pos, 16) < pos + max {
        digits_end(s, pos, 16)
    } else {
        pos + max
    }
}

/// `\u` and one to four hexadecimal digits, or `\u{`, hexadecimal digits
/// and `}`: the character with that number. Between the braces any number
/// of digits may stand; only what they write is bounded.
pub open spec fn unicode_escape_sequence(s: Seq<char>, pos: int) -> Reading<char> {
    if !(char_at(s, pos, '\\') && char_at(s, pos + 1, 'u')) {
        Err(failure(ParseErrorKind::Escape, pos))
    } else {
        let braced = char_at(s, pos + 2, '{');
        let start = if braced { pos + 3 } else { pos + 2 };
        let stop = if braced { digits_end(s, start, 16) } else { hex_end(s, start, 4) };
        let code = digits_value(s, start, stop, 16) as int;
        if stop == start || (braced && !char_at(s, stop, '}')) {
            Err(failure(ParseErrorKind::Escape, pos))
        } else if !is_scalar(code) {
            Err(failure(ParseErrorKind::CodePoint, pos))
        } else {
            Ok((code as char, if braced { stop + 1 } else { stop }))
        }
    }
}

/// What a character after a backslash stands for, where it stands for
/// another than itself.
pub open spec fn character_escape(c: char) -> char {
    if c == 'b' {
        '\u{8}'
    } else if c == 'f' {
        '\u{c}'
    } else if c == 'n' {
        '\n'
    } else if c == 'r' {
        '\r'
    } else if c == 't' {
        '\t'
    } else if c == 'v' {
        '\u{b}'
    } else {
        c
    }
}

/// `\x` and two hexadecimal digits: the character with that number.
pub open spec fn hex_escape_sequence(s: Seq<char>, pos: int) -> Reading<char> {
    if !(char_at(s, pos, '\\') && char_at(s, pos + 1, 'x')) || hex_end(s, pos + 2, 2) != pos + 4 {
        Err(failure(ParseErrorKind::Escape, pos))
    } else {
        Ok((digits_value(s, pos + 2, pos + 4, 16) as char, pos + 4))
    }
}

/// A backslash and what it introduces: the character that is meant. A digit
/// or a line terminator after the backslash is an error.
pub open spec fn escape_sequence(s: Seq<char>, pos: int) -> Reading<char> {
    if !char_at(s, pos, '\\') || pos + 1 >= s.len() {
        Err(failure(ParseErrorKind::Escape, pos))
    } else {
        let c = s[pos + 1];
        if c == 'x' {
            hex_escape_sequence(s, pos)
        } else if c == 'u' {
            unicode_escape_sequence(s, pos)
        } else if is_digit(c, 10) || is_line_terminator(c) {
            Err(failure(ParseErrorKind::Escape, pos))
        } else {
            Ok((character_escape(c), pos + 2))
        }
    }
}

// ---------------------------------------------------------------------------
// Identifiers
// ---------------------------------------------------------------------------

/// One character of an identifier, written as itself or as a `\u` escape;
/// `first` says whether it is to begin the identifier.
pub open spec fn identifier_char(s: Seq<char>, pos: int, first: bool) -> Option<(char, int)> {
    if char_at(s, pos, '\\') {
        match unicode_escape_sequence(s, pos) {
            Ok((c, end)) => if (first && id_start(c)) || (!first && id_continue(c)) {
                Some((c, end))
            } else {
                None
            },
            Err(_) => None,
        }
    } else if 0 <= pos < s.len() && ((first && id_start(s[pos])) || (!first && id_continue(
        s[pos],
    ))) {
        Some((s[pos], pos + 1))
    } else {
        None
    }
}

/// The characters that continue an identifier from `pos`, and where they end.
pub open spec fn identifier_rest(s: Seq<char>, pos: int) -> (Seq<char>, int)
    decreases s.len() - pos,
{
    match identifier_char(s, pos, false) {
        Some((c, end)) => if pos < end <= s.len() {
            (seq![c] + identifier_rest(s, end).0, identifier_rest(s, end).1)
        } else {
            (Seq::empty(), pos)
        },
        None => (Seq::empty(), pos),
    }
}

/// The words that no identifier can be: the keywords, the words reserved for
/// later use, and the literals `null`, `true` and `false`.
pub open spec fn is_reserved_word(w: Seq<char>) -> bool {
    w == "await"@ || w == "break"@ || w == "case"@ || w == "catch"@ || w == "class"@ || w
        == "const"@ || w == "continue"@ || w == "debugger"@ || w == "default"@ || w == "delete"@
        || w == "do"@ || w == "else"@ || w == "export"@ || w == "extends"@ || w == "finally"@ || w
        == "for"@ || w == "function"@ || w == "if"@ || w == "import"@ || w == "in"@ || w
        == "instanceof"@ || w == "new"@ || w == "return"@ || w == "super"@ || w == "switch"@ || w
        == "this"@ || w == "throw"@ || w == "try"@ || w == "typeof"@ || w == "var"@ || w == "void"@
        || w == "while"@ || w == "with"@ || w == "yield"@ || w == "enum"@ || w == "implements"@
        || w == "package"@ || w == "protected"@ || w == "interface"@ || w == "public"@ || w
        == "private"@ || w == "null"@ || w == "true"@ || w == "false"@
}

/// An identifier: a first character, the characters that continue it, and
/// the whole no reserved word.
pub open spec fn identifier(s: Seq<char>, pos: int) -> Reading<Seq<char>> {
    match identifier_char(s, pos, true) {
        None => Err(failure(ParseErrorKind::Identifier, pos)),
        Some((c, end)) => {
            let name = seq![c] + identifier_rest(s, end).0;
            if is_reserved_word(name) {
                Err(failure(ParseErrorKind::ReservedWord, pos))
            } else {
                Ok((name, identifier_rest(s, end).1))
            }
        },
    }
}

// ---------------------------------------------------------------------------
// Literals
// ---------------------------------------------------------------------------

pub open spec fn null_literal(s: Seq<char>, pos: int) -> Reading<NullLiteral> {
    if has_text(s, pos, "null"@) {
        Ok((NullLiteral, pos + 4))
    } else {
        Err(failure(ParseErrorKind::Keyword, pos))
    }
}

pub open spec fn boolean_literal(s: Seq<char>, pos: int) -> Reading<bool> {
    if has_text(s, pos, "true"@) {
        Ok((true, pos + 4))
    } else if has_text(s, pos, "false"@) {
        Ok((false, pos + 5))
    } else {
        Err(failure(ParseErrorKind::Keyword, pos))
    }
}

/// A number as it is written: what `digits` write in the base `radix`,
/// times ten to the written exponent less `fraction`.
pub struct Number {
    pub radix: nat,
    pub digits: Seq<char>,
    pub fraction: nat,
    pub negative: bool,
    pub exponent: Seq<char>,
}

impl View for NumberLiteral {
    type V = Number;

    open spec fn view(&self) -> Number {
        Number {
            radix: self.radix as nat,
            digits: self.digits@,
            fraction: self.fraction as nat,
            negative: self.exponent_negative,
            exponent: self.exponent@,
        }
    }
}

/// What the digits of a number write in its base.
pub open spec fn number_mantissa(n: Number) -> nat {
    digits_value(n.digits, 0, n.digits.len() as int, n.radix)
}

/// The power of ten that a number is multiplied by: the written exponent
/// less the number of digits after the point.
pub open spec fn number_exponent(n: Number) -> int {
    if n.negative {
        -digits_value(n.exponent, 0, n.exponent.len() as int, 10) - n.fraction
    } else {
        digits_value(n.exponent, 0, n.exponent.len() as int, 10) - n.fraction
    }
}

/// The base that the prefix at `pos` announces: `0b`, `0o` or `0x`, in
/// either case and followed by a digit of that base.
pub open spec fn radix_prefix(s: Seq<char>, pos: int) -> Option<nat> {
    if !char_at(s, pos, '0') || pos + 2 >= s.len() {
        None
    } else if (s[pos + 1] == 'b' || s[pos + 1] == 'B') && is_digit(s[pos + 2], 2) {
        Some(2)
    } else if (s[pos + 1] == 'o' || s[pos + 1] == 'O') && is_digit(s[pos + 2], 8) {
        Some(8)
    } else if (s[pos + 1] == 'x' || s[pos + 1] == 'X') && is_digit(s[pos + 2], 16) {
        Some(16)
    } else {
        None
    }
}

/// A prefix of the base `radix` and the digits after it, however many.
pub open spec fn radix_integer_literal(s: Seq<char>, pos: int, radix: nat) -> Reading<Number> {
    if radix_prefix(s, pos) == Some(radix) {
        Ok(
            (
                Number {
                    radix,
                    digits: s.subrange(pos + 2, digits_end(s, pos + 2, radix as int)),
                    fraction: 0,
                    negative: false,
                    exponent: Seq::empty(),
                },
                digits_end(s, pos + 2, radix as int),
            ),
        )
    } else {
        Err(failure(ParseErrorKind::Number, pos))
    }
}

/// Where the whole part of a decimal number ends: after a single zero, or
/// after a run of digits that begins with another digit. A zero followed by
/// a digit is an error; where no digit stands the whole part is empty.
pub open spec fn decimal_integer_end(s: Seq<char>, pos: int) -> Option<int> {
    if char_at(s, pos, '0') {
        if pos + 1 < s.len() && is_digit(s[pos + 1], 10) {
            None
        } else {
            Some(pos + 1)
        }
    } else {
        Some(digits_end(s, pos, 10))
    }
}

/// Where the part after the whole part ends: a dot and the digits after it,
/// or nothing.
pub open spec fn fraction_end(s: Seq<char>, pos: int) -> int {
    if char_at(s, pos, '.') {
        digits_end(s, pos + 1, 10)
    } else {
        pos
    }
}

/// Where the digits of the exponent at `pos` begin: after `e` or `E` and a
/// sign, if there is one.
pub open spec fn exponent_digits_start(s: Seq<char>, pos: int) -> int {
    if char_at(s, pos + 1, '-') || char_at(s, pos + 1, '+') {
        pos + 2
    } else {
        pos + 1
    }
}

/// An exponent: `e` or `E`, a sign or none, and at least one digit. The
/// reading is whether a minus sign stands there, and the digits.
pub open spec fn exponent_part(s: Seq<char>, pos: int) -> Reading<(bool, Seq<char>)> {
    let start = exponent_digits_start(s, pos);
    let end = digits_end(s, start, 10);
    if !(char_at(s, pos, 'e') || char_at(s, pos, 'E')) || end == start {
        Err(failure(ParseErrorKind::Number, pos))
    } else {
        Ok(((char_at(s, pos + 1, '-'), s.subrange(start, end)), end))
    }
}

/// How many digits the fraction between `whole_end` and `frac_end` has.
pub open spec fn fraction_digits(whole_end: int, frac_end: int) -> int {
    if frac_end > whole_end {
        frac_end - whole_end - 1
    } else {
        0
    }
}

/// The digits of the whole part and of the fraction, one after the other.
pub open spec fn decimal_digits(s: Seq<char>, pos: int, whole_end: int, frac_end: int) -> Seq<
    char,
> {
    if frac_end > whole_end {
        s.subrange(pos, whole_end) + s.subrange(whole_end + 1, frac_end)
    } else {
        s.subrange(pos, whole_end)
    }
}

/// A decimal number: a whole part, a fraction, an exponent, each of which may
/// be missing, but with a digit before the exponent, and with as many digits
/// as are written.
pub open spec fn decimal_literal(s: Seq<char>, pos: int) -> Reading<Number> {
    match decimal_integer_end(s, pos) {
        None => Err(failure(ParseErrorKind::Number, pos)),
        Some(whole_end) => {
            let frac_end = fraction_end(s, whole_end);
            let fraction = fraction_digits(whole_end, frac_end) as nat;
            let digits = decimal_digits(s, pos, whole_end, frac_end);
            if whole_end == pos && fraction == 0 {
                Err(failure(ParseErrorKind::Number, pos))
            } else if char_at(s, frac_end, 'e') || char_at(s, frac_end, 'E') {
                match exponent_part(s, frac_end) {
                    Err(e) => Err(e),
                    Ok(((negative, exponent), end)) => Ok(
                        (Number { radix: 10, digits, fraction, negative, exponent }, end),
                    ),
                }
            } else {
                Ok(
                    (
                        Number {
                            radix: 10,
                            digits,
                            fraction,
                            negative: false,
                            exponent: Seq::empty(),
                        },
                        frac_end,
                    ),
                )
            }
        },
    }
}

/// A number in any of its four forms.
pub open spec fn numeric_literal(s: Seq<char>, pos: int) -> Reading<Number> {
    match radix_prefix(s, pos) {
        Some(radix) => radix_integer_literal(s, pos, radix),
        None => decimal_literal(s, pos),
    }
}

/// The characters of a string from `pos` up to the closing `quote`, escape
/// sequences read as what they stand for, and the place after the quote.
pub open spec fn string_characters(s: Seq<char>, pos: int, quote: char) -> Reading<Seq<char>>
    decreases s.len() - pos,
{
    if pos < 0 || pos >= s.len() {
        Err(failure(ParseErrorKind::String, pos))
    } else if s[pos] == quote {
        Ok((Seq::empty(), pos + 1))
    } else if is_line_terminator(s[pos]) {
        Err(failure(ParseErrorKind::String, pos))
    } else {
        let one: Reading<char> = if s[pos] == '\\' {
            escape_sequence(s, pos)
        } else {
            Ok((s[pos], pos + 1))
        };
        match one {
            Err(e) => Err(e),
            Ok((c, next)) => if pos < next <= s.len() {
                match string_characters(s, next, quote) {
                    Ok((rest, end)) => Ok((seq![c] + rest, end)),
                    Err(e) => Err(e),
                }
            } else {
                Err(failure(ParseErrorKind::String, pos))
            },
        }
    }
}

/// A string between two `quote` characters.
pub open spec fn quoted_string(s: Seq<char>, pos: int, quote: char) -> Reading<Seq<char>> {
    if char_at(s, pos, quote) {
        string_characters(s, pos + 1, quote)
    } else {
        Err(failure(ParseErrorKind::String, pos))
    }
}

/// A string between double or single quotes.
pub open spec fn string_literal(s: Seq<char>, pos: int) -> Reading<Seq<char>> {
    if char_at(s, pos, '"') {
        quoted_string(s, pos, '"')
    } else {
        quoted_string(s, pos, '\'')
    }
}

// ---------------------------------------------------------------------------
// Regular expressions
// ---------------------------------------------------------------------------

/// Where a backslash and the character after it end; the character is no
/// line terminator.
pub open spec fn regex_backslash_sequence(s: Seq<char>, pos: int) -> Option<int> {
    if char_at(s, pos, '\\') && pos + 1 < s.len() && !is_line_terminator(s[pos + 1]) {
        Some(pos + 2)
    } else {
        None
    }
}

/// Where the character class ends whose inside starts at `pos`: after the
/// first `]` that no backslash escapes.
pub open spec fn regex_class_end(s: Seq<char>, pos: int) -> Option<int>
    decreases s.len() - pos,
{
    if pos < 0 || pos >= s.len() {
        None
    } else if s[pos] == ']' {
        Some(pos + 1)
    } else if s[pos] == '\\' {
        match regex_backslash_sequence(s, pos) {
            Some(_) => regex_class_end(s, pos + 2),
            None => None,
        }
    } else {
        regex_class_end(s, pos + 1)
    }
}

/// A character class: `[`, its inside, and `]`.
pub open spec fn regex_class(s: Seq<char>, pos: int) -> Option<int> {
    if char_at(s, pos, '[') {
        regex_class_end(s, pos + 1)
    } else {
        None
    }
}

/// Where one unit of a pattern ends: an escaped character, a class, or a
/// character that is no slash and no line terminator, and no star where the
/// unit is the `first` of the pattern.
pub open spec fn regex_char(s: Seq<char>, pos: int, first: bool) -> Option<int> {
    if pos < 0 || pos >= s.len() {
        None
    } else if s[pos] == '\\' {
        regex_backslash_sequence(s, pos)
    } else if s[pos] == '[' {
        regex_class(s, pos)
    } else if s[pos] == '/' || is_line_terminator(s[pos]) || (first && s[pos] == '*') {
        None
    } else {
        Some(pos + 1)
    }
}

/// Where the units of a pattern that start at `pos` end.
pub open spec fn regex_chars_end(s: Seq<char>, pos: int) -> int
    decreases s.len() - pos,
{
    match regex_char(s, pos, false) {
        Some(e) => if pos < e <= s.len() {
            regex_chars_end(s, e)
        } else {
            pos
        },
        None => pos,
    }
}

/// Where the pattern ends that starts at `pos`; it has at least one unit.
pub open spec fn regex_body(s: Seq<char>, pos: int) -> Option<int> {
    match regex_char(s, pos, true) {
        Some(e) => Some(regex_chars_end(s, e)),
        None => None,
    }
}

/// Where the characters that can continue an identifier end.
pub open spec fn flags_end(s: Seq<char>, pos: int) -> int
    decreases s.len() - pos,
{
    if 0 <= pos < s.len() && id_continue(s[pos]) {
        flags_end(s, pos + 1)
    } else {
        pos
    }
}

/// A regular expression literal: the pattern between two slashes, as it is
/// written, and the flags after it.
pub open spec fn regex_literal(s: Seq<char>, pos: int) -> Reading<(Seq<char>, Seq<char>)> {
    if !char_at(s, pos, '/') {
        Err(failure(ParseErrorKind::Regex, pos))
    } else {
        match regex_body(s, pos + 1) {
            Some(close) => if char_at(s, close, '/') {
                Ok(
                    (
                        (
                            s.subrange(pos + 1, close),
                            s.subrange(close + 1, flags_end(s, close + 1)),
                        ),
                        flags_end(s, close + 1),
                    ),
                )
            } else {
                Err(failure(ParseErrorKind::Regex, pos))
            },
            None => Err(failure(ParseErrorKind::Regex, pos)),
        }
    }
}

// ---------------------------------------------------------------------------
// Templates
// ---------------------------------------------------------------------------

/// One character of template text and where it ends: an escape sequence, a
/// dollar sign that opens no substitution, or any character but a backtick.
pub open spec fn template_character(s: Seq<char>, pos: int) -> Option<(char, int)> {
    if pos < 0 || pos >= s.len() {
        None
    } else if s[pos] == '$' {
        if char_at(s, pos + 1, '{') {
            None
        } else {
            Some(('$', pos + 1))
        }
    } else if s[pos] == '\\' {
        match escape_sequence(s, pos) {
            Ok((c, end)) => Some((c, end)),
            Err(_) => None,
        }
    } else if s[pos] == '`' {
        None
    } else {
        Some((s[pos], pos + 1))
    }
}

/// The characters of template text from `pos`, as they are meant, and where
/// they end.
pub open spec fn template_characters(s: Seq<char>, pos: int) -> (Seq<char>, int)
    decreases s.len() - pos,
{
    match template_character(s, pos) {
        Some((c, end)) => if pos < end <= s.len() {
            (seq![c] + template_characters(s, end).0, template_characters(s, end).1)
        } else {
            (Seq::empty(), pos)
        },
        None => (Seq::empty(), pos),
    }
}

/// A piece of a template: after the character `open`, template text up to
/// the text `close`. The reading is the text as it is meant and as it is
/// written.
pub open spec fn template_piece(s: Seq<char>, pos: int, open: char, close: Seq<char>) -> Reading<
    (Seq<char>, Seq<char>),
> {
    if !char_at(s, pos, open) || !has_text(s, template_characters(s, pos + 1).1, close) {
        Err(failure(ParseErrorKind::Template, pos))
    } else {
        Ok(
            (
                (
                    template_characters(s, pos + 1).0,
                    s.subrange(pos + 1, template_characters(s, pos + 1).1),
                ),
                template_characters(s, pos + 1).1 + close.len(),
            ),
        )
    }
}

/// A whole template without substitutions, between two backticks.
pub open spec fn no_substition_template(s: Seq<char>, pos: int) -> Reading<
    (Seq<char>, Seq<char>),
> {
    template_piece(s, pos, '`', seq!['`'])
}

/// The beginning of a template, from the backtick to the first `${`.
pub open spec fn template_head(s: Seq<char>, pos: int) -> Reading<(Seq<char>, Seq<char>)> {
    template_piece(s, pos, '`', seq!['$', '{'])
}

/// The first piece of a template, whole or not.
pub open spec fn template(s: Seq<char>, pos: int) -> Reading<(Seq<char>, Seq<char>)> {
    if no_substition_template(s, pos) is Ok {
        no_substition_template(s, pos)
    } else {
        template_head(s, pos)
    }
}

/// A piece between two substitutions, from `}` to the next `${`.
pub open spec fn template_middle(s: Seq<char>, pos: int) -> Reading<(Seq<char>, Seq<char>)> {
    template_piece(s, pos, '}', seq!['$', '{'])
}

/// The piece after the last substitution: `}` and the template text after it.
pub open spec fn template_tail(s: Seq<char>, pos: int) -> Reading<(Seq<char>, Seq<char>)> {
    template_piece(s, pos, '}', Seq::empty())
}

/// A piece after a substitution, be it followed by another or not.
pub open spec fn template_substition_tail(s: Seq<char>, pos: int) -> Reading<
    (Seq<char>, Seq<char>),
> {
    if template_middle(s, pos) is Ok {
        template_middle(s, pos)
    } else {
        template_tail(s, pos)
    }
}

} // verus!
