//! What holds of every text that the lexical grammar reads.

use vstd::prelude::*;
use vstd::arithmetic::power::pow;
use crate::javascript::error::{failure, ParseError, ParseErrorKind};
use crate::javascript::grammar::{
    char_at, decimal_integer_end, decimal_literal, digit_value, digits_end, digits_fold,
    digits_value, escape_sequence, exponent_digits_start, fraction_digits, fraction_end, hex_end,
    identifier, identifier_char, identifier_rest, is_digit, is_hex_digit, is_line_terminator,
    is_reserved_word, is_scalar, number_exponent, number_mantissa, numeric_literal,
    radix_integer_literal, radix_prefix, string_characters, Number,
};
use crate::javascript::unicode::id_continue;

verus! {

// ---------------------------------------------------------------------------
// Numbers
// ---------------------------------------------------------------------------

/// Reading digits in two steps gives what reading them in one step gives.
pub proof fn lemma_digits_fold_splits(
    init: nat,
    s: Seq<char>,
    from: int,
    mid: int,
    to: int,
    radix: nat,
)
    requires
        0 <= from <= mid <= to <= s.len(),
    ensures
        digits_fold(init, s, from, to, radix) == digits_fold(
            digits_fold(init, s, from, mid, radix),
            s,
            mid,
            to,
            radix,
        ),
    decreases to - mid,
{
    if mid < to {
        lemma_digits_fold_splits(init, s, from, mid, to - 1, radix);
    }
}

/// Digits written after a number multiply it by the base once for each
/// digit and add what the digits write by themselves.
pub proof fn lemma_digits_fold_is_positional(
    init: nat,
    s: Seq<char>,
    from: int,
    to: int,
    radix: nat,
)
    requires
        0 <= from <= to <= s.len(),
        forall|i: int| from <= i < to ==> is_hex_digit(#[trigger] s[i]),
    ensures
        digits_fold(init, s, from, to, radix) == init * pow(radix as int, (to - from) as nat)
            + digits_value(s, from, to, radix),
    decreases to - from,
{
    reveal(pow);
    if from < to {
        lemma_digits_fold_is_positional(init, s, from, to - 1, radix);
        let shorter = pow(radix as int, (to - 1 - from) as nat);
        let value = digits_value(s, from, to - 1, radix) as int;
        let digit = digit_value(s[to - 1]);
        assert(is_hex_digit(s[to - 1]));
        assert(pow(radix as int, (to - from) as nat) == radix * shorter);
        assert((init * shorter + value) * radix + digit == init * (radix * shorter) + (value * radix
            + digit)) by (nonlinear_arith);
        assert(value * radix + digit >= 0) by (nonlinear_arith)
            requires
                value >= 0,
                radix >= 0,
                digit >= 0,
        ;
        assert(init * shorter + value >= 0);
        assert((init * shorter + value) * radix + digit >= 0) by (nonlinear_arith)
            requires
                init * shorter + value >= 0,
                radix >= 0,
                digit >= 0,
        ;
    }
}

/// The number that digits write is the first digit times the base to the
/// number of digits after it, plus what the digits after it write.
pub proof fn lemma_digits_value_is_positional(s: Seq<char>, from: int, to: int, radix: nat)
    requires
        0 <= from < to <= s.len(),
        forall|i: int| from <= i < to ==> is_hex_digit(#[trigger] s[i]),
    ensures
        digits_value(s, from, to, radix) == digit_value(s[from]) * pow(
            radix as int,
            (to - from - 1) as nat,
        ) + digits_value(s, from + 1, to, radix),
{
    lemma_digits_fold_splits(0, s, from, from + 1, to, radix);
    assert(is_hex_digit(s[from]));
    assert(digits_fold(0, s, from, from + 1, radix) == digit_value(s[from])) by {
        assert(digits_fold(0, s, from, from, radix) == 0);
        assert(0 * radix == 0) by (nonlinear_arith);
    }
    lemma_digits_fold_is_positional(digit_value(s[from]) as nat, s, from + 1, to, radix);
}

/// Digits that are the same write the same, wherever they stand.
pub proof fn lemma_digits_fold_agrees(
    init: nat,
    a: Seq<char>,
    from_a: int,
    b: Seq<char>,
    from_b: int,
    len: int,
    radix: nat,
)
    requires
        0 <= from_a,
        0 <= from_b,
        0 <= len,
        from_a + len <= a.len(),
        from_b + len <= b.len(),
        forall|i: int| from_a <= i < from_a + len ==> #[trigger] a[i] == b[i - from_a + from_b],
    ensures
        digits_fold(init, a, from_a, from_a + len, radix) == digits_fold(
            init,
            b,
            from_b,
            from_b + len,
            radix,
        ),
    decreases len,
{
    if len > 0 {
        lemma_digits_fold_agrees(init, a, from_a, b, from_b, len - 1, radix);
        assert(a[from_a + len - 1] == b[from_a + len - 1 - from_a + from_b]);
    }
}

/// The digits from `pos` up to where they end are digits.
pub proof fn lemma_digits_end_bounds(s: Seq<char>, pos: int, radix: int)
    requires
        0 <= pos <= s.len(),
    ensures
        pos <= digits_end(s, pos, radix) <= s.len(),
        forall|i: int| pos <= i < digits_end(s, pos, radix) ==> is_digit(#[trigger] s[i], radix),
    decreases s.len() - pos,
{
    if pos < s.len() && is_digit(s[pos], radix) {
        lemma_digits_end_bounds(s, pos + 1, radix);
    }
}

/// A number with a prefix of its base is a number, however many digits it
/// has: the whole number that its digits write in that base.
pub proof fn lemma_radix_literal_value(s: Seq<char>, pos: int, radix: nat)
    requires
        radix_prefix(s, pos) == Some(radix),
    ensures
        numeric_literal(s, pos) == radix_integer_literal(s, pos, radix),
        numeric_literal(s, pos) is Ok,
        numeric_literal(s, pos)->Ok_0.1 == digits_end(s, pos + 2, radix as int),
        number_exponent(numeric_literal(s, pos)->Ok_0.0) == 0,
        number_mantissa(numeric_literal(s, pos)->Ok_0.0) == digits_value(
            s,
            pos + 2,
            digits_end(s, pos + 2, radix as int),
            radix,
        ),
{
    let end = digits_end(s, pos + 2, radix as int);
    lemma_digits_end_bounds(s, pos + 2, radix as int);
    let digits = s.subrange(pos + 2, end);
    lemma_digits_fold_agrees(0, digits, 0, s, pos + 2, end - (pos + 2), radix);
}

/// A decimal number is worth what it says: its digits write the whole part
/// times ten to the number of digits of the fraction, plus the digits of
/// the fraction; it is multiplied by ten to the written exponent, or zero,
/// less that number of digits.
pub proof fn lemma_decimal_literal_value(s: Seq<char>, pos: int)
    requires
        0 <= pos <= s.len(),
        decimal_literal(s, pos) is Ok,
    ensures
        ({
            let whole_end = decimal_integer_end(s, pos)->Some_0;
            let frac_end = fraction_end(s, whole_end);
            let digits = fraction_digits(whole_end, frac_end);
            let literal = decimal_literal(s, pos)->Ok_0.0;
            let start = exponent_digits_start(s, frac_end);
            let written = digits_value(s, start, digits_end(s, start, 10), 10) as int;
            &&& number_mantissa(literal) == digits_value(s, pos, whole_end, 10) * pow(
                10,
                digits as nat,
            ) + digits_value(s, whole_end + 1, frac_end, 10)
            &&& number_exponent(literal) == (if !(char_at(s, frac_end, 'e') || char_at(
                s,
                frac_end,
                'E',
            )) {
                0
            } else if char_at(s, frac_end + 1, '-') {
                -written
            } else {
                written
            }) - digits
        }),
{
    let whole_end = decimal_integer_end(s, pos)->Some_0;
    let frac_end = fraction_end(s, whole_end);
    let literal = decimal_literal(s, pos)->Ok_0.0;
    let whole = s.subrange(pos, whole_end);
    lemma_digits_end_bounds(s, pos, 10);
    if char_at(s, whole_end, '.') {
        lemma_digits_end_bounds(s, whole_end + 1, 10);
        let frac = s.subrange(whole_end + 1, frac_end);
        let all = whole + frac;
        assert(literal.digits == all);
        lemma_digits_fold_splits(0, all, 0, whole.len() as int, all.len() as int, 10);
        lemma_digits_fold_agrees(0, all, 0, s, pos, whole.len() as int, 10);
        lemma_digits_fold_agrees(
            digits_value(s, pos, whole_end, 10),
            all,
            whole.len() as int,
            s,
            whole_end + 1,
            frac.len() as int,
            10,
        );
        lemma_digits_fold_is_positional(
            digits_value(s, pos, whole_end, 10),
            s,
            whole_end + 1,
            frac_end,
            10,
        );
    } else {
        reveal(pow);
        assert(literal.digits == whole);
        lemma_digits_fold_agrees(0, whole, 0, s, pos, whole.len() as int, 10);
        assert(digits_value(s, pos, whole_end, 10) * 1 == digits_value(s, pos, whole_end, 10));
    }
    if char_at(s, frac_end, 'e') || char_at(s, frac_end, 'E') {
        let start = exponent_digits_start(s, frac_end);
        lemma_digits_end_bounds(s, start, 10);
        let end = digits_end(s, start, 10);
        lemma_digits_fold_agrees(0, s.subrange(start, end), 0, s, start, end - start, 10);
    }
}

/// A zero followed by a digit is no number.
pub proof fn lemma_leading_zero_rejected(s: Seq<char>, pos: int)
    requires
        char_at(s, pos, '0'),
        pos + 1 < s.len(),
        is_digit(s[pos + 1], 10),
    ensures
        numeric_literal(s, pos) == Err::<(Number, int), ParseError>(
            failure(ParseErrorKind::Number, pos),
        ),
{
}

/// A zero that no digit, dot, exponent or mark of a base follows is the
/// number zero.
pub proof fn lemma_lone_zero_accepted(s: Seq<char>, pos: int)
    requires
        char_at(s, pos, '0'),
        pos + 1 == s.len(),
    ensures
        numeric_literal(s, pos) is Ok,
        numeric_literal(s, pos)->Ok_0.1 == pos + 1,
        numeric_literal(s, pos)->Ok_0.0.digits == seq!['0'],
        number_mantissa(numeric_literal(s, pos)->Ok_0.0) == 0,
        number_exponent(numeric_literal(s, pos)->Ok_0.0) == 0,
{
    assert(s.subrange(pos, pos + 1) =~= seq!['0']);
    reveal_with_fuel(digits_fold, 2);
    assert(0 * 10 == 0) by (nonlinear_arith);
}

// ---------------------------------------------------------------------------
// Escape sequences
// ---------------------------------------------------------------------------

/// The escapes `\b \f \n \r \t \v` stand for backspace, form feed, line feed,
/// carriage return, tabulator and vertical tabulator.
pub proof fn lemma_character_escapes(s: Seq<char>, pos: int)
    requires
        char_at(s, pos, '\\'),
        pos + 1 < s.len(),
        s[pos + 1] == 'b' || s[pos + 1] == 'f' || s[pos + 1] == 'n' || s[pos + 1] == 'r' || s[pos
            + 1] == 't' || s[pos + 1] == 'v',
    ensures
        escape_sequence(s, pos) is Ok,
        escape_sequence(s, pos)->Ok_0.1 == pos + 2,
        s[pos + 1] == 'b' ==> escape_sequence(s, pos)->Ok_0.0 == '\u{8}',
        s[pos + 1] == 'f' ==> escape_sequence(s, pos)->Ok_0.0 == '\u{c}',
        s[pos + 1] == 'n' ==> escape_sequence(s, pos)->Ok_0.0 == '\u{a}',
        s[pos + 1] == 'r' ==> escape_sequence(s, pos)->Ok_0.0 == '\u{d}',
        s[pos + 1] == 't' ==> escape_sequence(s, pos)->Ok_0.0 == '\u{9}',
        s[pos + 1] == 'v' ==> escape_sequence(s, pos)->Ok_0.0 == '\u{b}',
{
}

/// `\x` and two hexadecimal digits stand for the character whose number the
/// digits write.
pub proof fn lemma_hex_escape(s: Seq<char>, pos: int)
    requires
        char_at(s, pos, '\\'),
        char_at(s, pos + 1, 'x'),
        pos + 3 < s.len(),
        is_hex_digit(s[pos + 2]),
        is_hex_digit(s[pos + 3]),
    ensures
        escape_sequence(s, pos) == Ok::<(char, int), ParseError>(
            ((digit_value(s[pos + 2]) * 16 + digit_value(s[pos + 3])) as char, pos + 4),
        ),
{
    reveal_with_fuel(digits_end, 3);
    reveal_with_fuel(digits_fold, 3);
    lemma_digits_end_bounds(s, pos + 4, 16);
    assert(is_digit(s[pos + 2], 16) && is_digit(s[pos + 3], 16));
    assert(digits_end(s, pos + 2, 16) == digits_end(s, pos + 4, 16));
    assert(hex_end(s, pos + 2, 2) == pos + 4);
    assert(0 * 16 == 0) by (nonlinear_arith);
}

/// `\u` and four hexadecimal digits stand for the character whose number
/// the digits write, where there is such a character.
pub proof fn lemma_unicode_escape(s: Seq<char>, pos: int)
    requires
        char_at(s, pos, '\\'),
        char_at(s, pos + 1, 'u'),
        pos + 5 < s.len(),
        is_hex_digit(s[pos + 2]),
        is_hex_digit(s[pos + 3]),
        is_hex_digit(s[pos + 4]),
        is_hex_digit(s[pos + 5]),
        is_scalar(
            ((digit_value(s[pos + 2]) * 16 + digit_value(s[pos + 3])) * 16 + digit_value(
                s[pos + 4],
            )) * 16 + digit_value(s[pos + 5]),
        ),
    ensures
        escape_sequence(s, pos) == Ok::<(char, int), ParseError>(
            (
                (((digit_value(s[pos + 2]) * 16 + digit_value(s[pos + 3])) * 16 + digit_value(
                    s[pos + 4],
                )) * 16 + digit_value(s[pos + 5])) as char,
                pos + 6,
            ),
        ),
{
    reveal_with_fuel(digits_end, 5);
    reveal_with_fuel(digits_fold, 5);
    lemma_digits_end_bounds(s, pos + 6, 16);
    assert(is_digit(s[pos + 2], 16) && is_digit(s[pos + 3], 16));
    assert(is_digit(s[pos + 4], 16) && is_digit(s[pos + 5], 16));
    assert(digits_end(s, pos + 2, 16) == digits_end(s, pos + 6, 16));
    assert(hex_end(s, pos + 2, 4) == pos + 6);
    assert(0 * 16 == 0) by (nonlinear_arith);
}

/// `\u{`, hexadecimal digits, however many, and `}` stand for the character
/// whose number the digits write, where there is such a character; a number
/// beyond the last code point is an error.
pub proof fn lemma_braced_unicode_escape(s: Seq<char>, pos: int, digits: int)
    requires
        char_at(s, pos, '\\'),
        char_at(s, pos + 1, 'u'),
        char_at(s, pos + 2, '{'),
        1 <= digits,
        pos + 3 + digits < s.len(),
        forall|i: int| pos + 3 <= i < pos + 3 + digits ==> is_hex_digit(#[trigger] s[i]),
        s[pos + 3 + digits] == '}',
    ensures
        is_scalar(digits_value(s, pos + 3, pos + 3 + digits, 16) as int) ==> escape_sequence(s, pos)
            == Ok::<(char, int), ParseError>(
            (digits_value(s, pos + 3, pos + 3 + digits, 16) as char, pos + 4 + digits),
        ),
        digits_value(s, pos + 3, pos + 3 + digits, 16) > 0x10FFFF ==> escape_sequence(s, pos)
            == Err::<(char, int), ParseError>(failure(ParseErrorKind::CodePoint, pos)),
{
    lemma_digits_run(s, pos + 3, pos + 3 + digits);
}

/// Where hexadecimal digits stand from `from` to `to` and none at `to`, the
/// digits from `from` end at `to`.
proof fn lemma_digits_run(s: Seq<char>, from: int, to: int)
    requires
        0 <= from <= to < s.len(),
        forall|i: int| from <= i < to ==> is_hex_digit(#[trigger] s[i]),
        !is_hex_digit(s[to]),
    ensures
        digits_end(s, from, 16) == to,
    decreases to - from,
{
    if from < to {
        assert(is_hex_digit(s[from]));
        lemma_digits_run(s, from + 1, to);
    }
}

/// A backslash before a line terminator does not continue a string on the
/// next line: the string is in error.
pub proof fn lemma_no_line_continuation(s: Seq<char>, pos: int, quote: char)
    requires
        char_at(s, pos, '\\'),
        pos + 1 < s.len(),
        is_line_terminator(s[pos + 1]),
        quote != '\\',
    ensures
        string_characters(s, pos, quote) == Err::<(Seq<char>, int), ParseError>(
            failure(ParseErrorKind::Escape, pos),
        ),
{
}

/// An error inside a string is the error of the string: where the text from
/// `next` on is in error, so is the text from the character before it.
pub proof fn lemma_string_error_spreads(s: Seq<char>, pos: int, quote: char)
    requires
        0 <= pos < s.len(),
        s[pos] != quote,
        s[pos] != '\\',
        !is_line_terminator(s[pos]),
        string_characters(s, pos + 1, quote) is Err,
    ensures
        string_characters(s, pos, quote) == string_characters(s, pos + 1, quote),
{
}

// ---------------------------------------------------------------------------
// Reserved words
// ---------------------------------------------------------------------------

/// Whether every character of `w` is a small letter.
pub open spec fn all_small_letters(w: Seq<char>) -> bool {
    forall|i: int| 0 <= i < w.len() ==> 'a' <= #[trigger] w[i] && w[i] <= 'z'
}

/// Every reserved word is made of small letters.
pub proof fn lemma_reserved_words_are_letters(w: Seq<char>)
    requires
        is_reserved_word(w),
    ensures
        w.len() > 0,
        all_small_letters(w),
{
    reveal_strlit("await");
    reveal_strlit("break");
    reveal_strlit("case");
    reveal_strlit("catch");
    reveal_strlit("class");
    reveal_strlit("const");
    reveal_strlit("continue");
    reveal_strlit("debugger");
    reveal_strlit("default");
    reveal_strlit("delete");
    reveal_strlit("do");
    reveal_strlit("else");
    reveal_strlit("export");
    reveal_strlit("extends");
    reveal_strlit("finally");
    reveal_strlit("for");
    reveal_strlit("function");
    reveal_strlit("if");
    reveal_strlit("import");
    reveal_strlit("in");
    reveal_strlit("instanceof");
    reveal_strlit("new");
    reveal_strlit("return");
    reveal_strlit("super");
    reveal_strlit("switch");
    reveal_strlit("this");
    reveal_strlit("throw");
    reveal_strlit("try");
    reveal_strlit("typeof");
    reveal_strlit("var");
    reveal_strlit("void");
    reveal_strlit("while");
    reveal_strlit("with");
    reveal_strlit("yield");
    reveal_strlit("enum");
    reveal_strlit("implements");
    reveal_strlit("package");
    reveal_strlit("protected");
    reveal_strlit("interface");
    reveal_strlit("public");
    reveal_strlit("private");
    reveal_strlit("null");
    reveal_strlit("true");
    reveal_strlit("false");
}

/// A run of letters, digits, dollar signs and underscores up to the end of
/// the text is read whole as the rest of an identifier.
pub proof fn lemma_plain_rest_is_read(s: Seq<char>, pos: int)
    requires
        0 <= pos <= s.len(),
        forall|i: int| pos <= i < s.len() ==> id_continue(#[trigger] s[i]) && s[i] != '\\',
    ensures
        identifier_rest(s, pos) == (s.skip(pos), s.len() as int),
    decreases s.len() - pos,
{
    if pos < s.len() {
        assert(id_continue(s[pos]) && s[pos] != '\\');
        lemma_plain_rest_is_read(s, pos + 1);
        assert(seq![s[pos]] + s.skip(pos + 1) =~= s.skip(pos));
    } else {
        assert(s.skip(pos) =~= Seq::<char>::empty());
    }
}

/// A text that is a reserved word is no identifier.
pub proof fn lemma_reserved_word_rejected(w: Seq<char>)
    requires
        is_reserved_word(w),
    ensures
        identifier(w, 0) == Err::<(Seq<char>, int), ParseError>(
            failure(ParseErrorKind::ReservedWord, 0),
        ),
{
    lemma_reserved_words_are_letters(w);
    assert('a' <= w[0] && w[0] <= 'z');
    assert(identifier_char(w, 0, true) == Some((w[0], 1int)));
    assert forall|i: int| 1 <= i < w.len() implies id_continue(#[trigger] w[i]) && w[i] != '\\' by {
        assert('a' <= w[i] && w[i] <= 'z');
    }
    lemma_plain_rest_is_read(w, 1);
    assert(seq![w[0]] + w.skip(1) =~= w);
}

/// No identifier that the grammar reads is a reserved word.
pub proof fn lemma_identifiers_are_not_reserved(s: Seq<char>, pos: int)
    requires
        identifier(s, pos) is Ok,
    ensures
        !is_reserved_word(identifier(s, pos)->Ok_0.0),
{
}

} // verus!
