use rpack::javascript::ast::{NullLiteral, NumberLiteral, RegexLiteral, TemplateElement};
use rpack::javascript::error::ParseError;
use rpack::javascript::lexer::{
    boolean_literal, comment, identifier, null_literal, numeric_literal, regex_literal,
    string_literal, template, template_character, template_substition_tail,
};

fn chars(input: &str) -> Vec<char> {
    input.chars().collect()
}

/// What a reader gave, with the text that it left unread in place of the
/// place where it stopped.
fn with_rest<T>(input: &str, r: Result<(T, usize), ParseError>) -> Result<(T, String), ParseError> {
    r.map(|(value, end)| (value, input.chars().skip(end).collect()))
}

/// What a reader gave, where it read the text to its end.
fn to_the_end<T>(r: Result<(T, String), ParseError>) -> Result<T, ()> {
    match r {
        Ok((value, rest)) if rest.is_empty() => Ok(value),
        _ => Err(()),
    }
}

fn number(input: &str) -> Result<(f64, String), ParseError> {
    with_rest(input, numeric_literal(&chars(input), 0)).map(|(n, rest)| (as_float(n), rest))
}

/// The float nearest to what the literal says.
fn as_float(n: NumberLiteral) -> f64 {
    if n.radix == 10 {
        n.to_string().parse().unwrap()
    } else {
        let radix = n.radix;
        n.digits.chars().fold(0f64, |v, c| v * radix as f64 + c.to_digit(radix).unwrap() as f64)
    }
}

fn string(input: &str) -> Result<(String, String), ParseError> {
    with_rest(input, string_literal(&chars(input), 0))
}

fn name(input: &str) -> Result<(String, String), ParseError> {
    with_rest(input, identifier(&chars(input), 0))
}

fn any_comment(input: &str) -> Result<((), String), ParseError> {
    with_rest(input, comment(&chars(input), 0))
}

fn regex(input: &str) -> Result<(RegexLiteral, String), ParseError> {
    with_rest(input, regex_literal(&chars(input), 0))
}

fn template_char(input: &str) -> Result<((char, String), String), ()> {
    match template_character(&chars(input), 0) {
        Some((c, end)) => Ok((
            (c, input.chars().take(end).collect()),
            input.chars().skip(end).collect(),
        )),
        None => Err(()),
    }
}

#[test]
fn test_line_comment() {
    assert_eq!(any_comment("//\n"), Ok(((), "".to_string())));
    assert_eq!(any_comment("// hello\n"), Ok(((), "".to_string())));
}

#[test]
fn test_block_comment() {
    assert_eq!(any_comment("/**/"), Ok(((), "".to_string())));
    assert_eq!(any_comment("/* * */"), Ok(((), "".to_string())));
    assert_eq!(any_comment("/** * **/"), Ok(((), "".to_string())));
    assert_eq!(any_comment("/* hello *\n\t */"), Ok(((), "".to_string())));
}

#[test]
fn test_identifier() {
    assert!(name(r"\u000a").is_err());
    assert!(name(r"\u200d").is_err());
    assert!(name(r"\u200c").is_err());
    assert_eq!(name(r"\u24"), Ok(("$".to_string(), "".to_string())));
    assert_eq!(name(r"_"), Ok(("_".to_string(), "".to_string())));
    assert_eq!(name(r"a_"), Ok(("a_".to_string(), "".to_string())));
    assert_eq!(name(r"a$"), Ok(("a$".to_string(), "".to_string())));
    assert_eq!(name(r"_\u200d"), Ok(("_\u{200d}".to_string(), "".to_string())));
    assert_eq!(name(r"_\u200c"), Ok(("_\u{200c}".to_string(), "".to_string())));
}

#[test]
fn test_identifier_reserved_word() {
    let keywords = [
        "await", "break", "case", "catch", "class", "const", "continue", "debugger", "default",
        "delete", "do", "else", "export", "extends", "finally", "for", "function", "if", "import",
        "in", "instanceof", "new", "return", "super", "switch", "this", "throw", "try", "typeof",
        "var", "void", "while", "with", "yield",
    ];
    let future_reserved_words = ["enum"];
    let future_reserved_words_strict =
        ["implements", "package", "protected", "interface", "public", "private"];
    for &keyword in keywords.iter() {
        assert!(name(keyword).is_err());
    }
    for &keyword in future_reserved_words.iter() {
        assert!(name(keyword).is_err());
    }
    for &keyword in future_reserved_words_strict.iter() {
        assert!(name(keyword).is_err());
    }
    assert!(name("null").is_err());
    assert!(name("true").is_err());
    assert!(name("false").is_err());
}

#[test]
fn test_null_literal() {
    assert_eq!(
        with_rest("null", null_literal(&chars("null"), 0)),
        Ok((NullLiteral, "".to_string()))
    );
}

#[test]
fn test_boolean_literal() {
    assert_eq!(
        with_rest("true", boolean_literal(&chars("true"), 0)),
        Ok((true, "".to_string()))
    );
    assert_eq!(
        with_rest("false", boolean_literal(&chars("false"), 0)),
        Ok((false, "".to_string()))
    );
}

#[test]
fn test_number_literal() {
    assert_eq!(number("0"), Ok((0f64, "".to_string())));
    assert!(number("01").is_err());
    assert!(number("01.").is_err());
    assert_eq!(number("9"), Ok((9f64, "".to_string())));
    assert_eq!(number("10"), Ok((10f64, "".to_string())));
    assert_eq!(number("0.1"), Ok((0.1f64, "".to_string())));
    assert_eq!(number(".1"), Ok((0.1f64, "".to_string())));
    assert_eq!(number("1e1"), Ok((10f64, "".to_string())));
    assert_eq!(number(".1e1"), Ok((1f64, "".to_string())));
    assert_eq!(number("1.1e1"), Ok((11f64, "".to_string())));

    assert_eq!(number("0b1010"), Ok((10f64, "".to_string())));
    assert_eq!(number("0B1010"), Ok((10f64, "".to_string())));
    assert_eq!(number("0o123"), Ok((83f64, "".to_string())));
    assert_eq!(number("0O123"), Ok((83f64, "".to_string())));
    assert_eq!(number("0xDEADBEEF"), Ok((3735928559f64, "".to_string())));
    assert_eq!(number("0XDEADBEEF"), Ok((3735928559f64, "".to_string())));
}

#[test]
fn test_string_literal() {
    assert_eq!(string(r#""""#), Ok((String::new(), "".to_string())));
    assert_eq!(string("''"), Ok((String::new(), "".to_string())));
    for not_allowed_char in "\u{005c}\u{000D}\u{2028}\u{2029}\u{000A}".chars() {
        let double_quote_slice: &str = &format!("\"{}\"", not_allowed_char);
        let single_quote_slice: &str = &format!("'{}'", not_allowed_char);
        assert!(string(double_quote_slice).is_err());
        assert!(string(single_quote_slice).is_err());
    }
    for escaped_character in r#"'"\bfnrtv"#.chars() {
        let double_quote_slice: &str = &format!("\"\\{}\"", escaped_character);
        let single_quote_slice: &str = &format!("'\\{}'", escaped_character);
        assert!(string(double_quote_slice).is_ok());
        assert!(string(single_quote_slice).is_ok());
    }
    assert_eq!(string("\"\\a\""), Ok(("a".to_string(), "".to_string())));
    assert_eq!(string("'\\a'"), Ok(("a".to_string(), "".to_string())));

    assert_eq!(string(r#""\x0A""#), Ok(("\n".to_string(), "".to_string())));
    assert_eq!(string(r"'\x0a'"), Ok(("\n".to_string(), "".to_string())));
    assert_eq!(string(r#""\u2764""#), Ok(("❤".to_string(), "".to_string())));
    assert_eq!(string(r"'\u2764'"), Ok(("❤".to_string(), "".to_string())));
    assert_eq!(string(r#""\u{2764}""#), Ok(("❤".to_string(), "".to_string())));
    assert_eq!(string(r"'\u{2764}'"), Ok(("❤".to_string(), "".to_string())));
    assert!(string(r"'\u{110000}'").is_err());

    for line_continuation_char in "\r\n\u{2028}\u{2029}".chars() {
        let double_quote_slice: &str = &format!("\"\\{}\"", line_continuation_char);
        let single_quote_slice: &str = &format!("'\\{}'", line_continuation_char);
        assert!(string(double_quote_slice).is_err());
        assert!(string(single_quote_slice).is_err());
    }
}

#[test]
fn test_regex_literal() {
    assert!(string("//").is_err());

    for c in "*\\/[".chars() {
        let slice: &str = &format!("/{}/", c);
        assert!(string(slice).is_err());
    }

    assert_eq!(
        regex("/\\a/"),
        Ok((RegexLiteral { pattern: "\\a".to_string(), flags: String::new() }, "".to_string()))
    );
    assert_eq!(
        regex("/[ab]/"),
        Ok((RegexLiteral { pattern: "[ab]".to_string(), flags: String::new() }, "".to_string()))
    );

    for c in "\\/[".chars() {
        let slice: &str = &format!("/a{}/", c);
        assert!(string(slice).is_err());
    }

    assert_eq!(
        regex("/a\\a/"),
        Ok((RegexLiteral { pattern: "a\\a".to_string(), flags: String::new() }, "".to_string()))
    );
    assert_eq!(
        regex("/a[ab]/"),
        Ok((RegexLiteral { pattern: "a[ab]".to_string(), flags: String::new() }, "".to_string()))
    );

    for c in "\\/]".chars() {
        let slice: &str = &format!("/a[{}]/", c);
        assert!(string(slice).is_err());
    }

    assert_eq!(
        regex("/a[ab\\]]/"),
        Ok((
            RegexLiteral { pattern: "a[ab\\]]".to_string(), flags: String::new() },
            "".to_string()
        ))
    );

    assert_eq!(
        regex("/a/f"),
        Ok((RegexLiteral { pattern: "a".to_string(), flags: "f".to_string() }, "".to_string()))
    );
    assert_eq!(
        regex("/a/fi"),
        Ok((RegexLiteral { pattern: "a".to_string(), flags: "fi".to_string() }, "".to_string()))
    );
    assert!(to_the_end(regex("/a/\\u1234")).is_err());
}

#[test]
fn test_template_elements() {
    assert_eq!(
        with_rest("``", template(&chars("``"), 0)),
        Ok((TemplateElement { cooked: "".to_string(), raw: "".to_string() }, "".to_string()))
    );
    assert_eq!(
        with_rest("`asd`", template(&chars("`asd`"), 0)),
        Ok((TemplateElement { cooked: "asd".to_string(), raw: "asd".to_string() }, "".to_string()))
    );
    assert_eq!(
        with_rest("`asd ${eval}`", template(&chars("`asd ${eval}`"), 0)),
        Ok((
            TemplateElement { cooked: "asd ".to_string(), raw: "asd ".to_string() },
            "eval}`".to_string()
        ))
    );
    assert_eq!(
        with_rest("} asd ${eval}`", template_substition_tail(&chars("} asd ${eval}`"), 0)),
        Ok((
            TemplateElement { cooked: " asd ".to_string(), raw: " asd ".to_string() },
            "eval}`".to_string()
        ))
    );
    assert_eq!(
        with_rest("} asd", template_substition_tail(&chars("} asd"), 0)),
        Ok((TemplateElement { cooked: " asd".to_string(), raw: " asd".to_string() }, "".to_string()))
    );

    assert_eq!(template_char("$123"), Ok((('$', "$".to_string()), "123".to_string())));
    assert_eq!(template_char("\\n"), Ok((('\n', "\\n".to_string()), "".to_string())));
    assert_eq!(template_char("\\x0A"), Ok((('\n', "\\x0A".to_string()), "".to_string())));
    assert_eq!(template_char("\\u2764"), Ok((('❤', "\\u2764".to_string()), "".to_string())));
    assert_eq!(template_char("\\u{2764}"), Ok((('❤', "\\u{2764}".to_string()), "".to_string())));
    for line_continuation_char in "\r\n\u{2028}\u{2029}".chars() {
        let slice: &str = &line_continuation_char.to_string();
        assert_eq!(
            template_char(slice),
            Ok(((line_continuation_char, line_continuation_char.to_string()), "".to_string()))
        );
    }
}

#[test]
fn numbers_of_any_length_have_their_value() {
    // seventeen hexadecimal digits write 2^64 + 1 and more
    assert_eq!(number("0x10000000000000001"), Ok((18446744073709551616f64, "".to_string())));
    assert_eq!(number("0xFFFFFFFFFFFFFFFFF"), Ok((295147905179352825855f64, "".to_string())));
    let ones = format!("0b{}", "1".repeat(70));
    assert_eq!(number(&ones), Ok((1180591620717411303423f64, "".to_string())));
    let sevens = format!("0o{}", "7".repeat(30));
    assert_eq!(number(&sevens), Ok((1237940039285380274899124223f64, "".to_string())));
    assert_eq!(number("0x1F"), Ok((31f64, "".to_string())));
    assert_eq!(number("18446744073709551616"), Ok((18446744073709551616f64, "".to_string())));
    assert_eq!(
        number("0.1234567890123456789012345"),
        Ok((0.1234567890123456789012345f64, "".to_string()))
    );
    assert_eq!(number("1e99999999999999999999"), Ok((f64::INFINITY, "".to_string())));
    assert_eq!(number("1e-99999999999999999999"), Ok((0f64, "".to_string())));
}

#[test]
fn braces_take_any_number_of_digits() {
    assert_eq!(string(r"'\u{0000041}'"), Ok(("A".to_string(), "".to_string())));
    assert_eq!(string(r"'\u{00000000000000000000000000000041}'"), Ok(("A".to_string(), "".to_string())));
    assert_eq!(string(r"'\u{000000010FFFF}'"), Ok(("\u{10FFFF}".to_string(), "".to_string())));
    assert!(string(r"'\u{0000000110000}'").is_err());
    assert!(string(r"'\u{100000000000000000000}'").is_err());
    assert!(string(r"'\u{}'").is_err());
    // two digits after \x, no fewer
    assert_eq!(string(r"'\x41'"), Ok(("A".to_string(), "".to_string())));
    assert!(string(r"'\x4'").is_err());
}
