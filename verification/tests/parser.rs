use rpack::javascript::ast::{
    Expression, Literal, Function, FunctionBodyStatement, FunctionDeclaration, ImportBinding, ImportSpecifier,
    NumberLiteral, Pattern, Program, SourceType, Statement, VariableDeclaration,
    VariableDeclarationKind, VariableDeclarator,
};
use rpack::javascript::ast::Position;
use rpack::javascript::error::{position_of, ParseError, ParseErrorKind};
use rpack::javascript::lexer::{
    boolean_literal, null_literal,
    binary_integer_literal, block_comment, decimal_literal, escape_sequence, hex_escape_sequence,
    hex_integer_literal, identifier, line_comment, line_terminator, numeric_literal,
    octal_integer_literal, regex_literal, skip_tokens, string_literal, template_head,
    template_middle, template_tail, unicode_escape_sequence, whitespace,
};
use rpack::javascript::parser::{
    function_declaration, import_statement, parse, statement, var_declaration,
    var_declaration_kind,
};
use rpack::javascript::visit::{Data, ImportCollector};

fn chars(input: &str) -> Vec<char> {
    input.chars().collect()
}

fn var(kind: VariableDeclarationKind, name: &str) -> Statement {
    Statement::VariableDeclaration {
        declaration: VariableDeclaration {
            kind,
            declarations: vec![VariableDeclarator {
                id: Pattern::Id { id: name.to_string() },
                init: None,
            }],
        },
    }
}

fn required(kind: VariableDeclarationKind, name: &str, path: &str) -> Statement {
    Statement::VariableDeclaration {
        declaration: VariableDeclaration {
            kind,
            declarations: vec![VariableDeclarator {
                id: Pattern::Id { id: name.to_string() },
                init: Some(Expression::Call {
                    callee: Box::new(Expression::Id { id: "require".to_string() }),
                    arguments: vec![Expression::Literal {
                        literal: Literal::StringLiteral(path.to_string()),
                    }],
                }),
            }],
        },
    }
}

fn import(local: &str, source: &str) -> Statement {
    Statement::Import(ImportSpecifier::ImportDefault(local.to_string()), source.to_string())
}

fn namespace(local: &str, source: &str) -> Statement {
    Statement::Import(ImportSpecifier::ImportNamespaced(local.to_string()), source.to_string())
}

fn named(pairs: Vec<(&str, &str)>, source: &str) -> Statement {
    let bindings = pairs
        .into_iter()
        .map(|(imported, local)| ImportBinding {
            imported: imported.to_string(),
            local: local.to_string(),
        })
        .collect();
    Statement::Import(ImportSpecifier::Import(bindings), source.to_string())
}

fn function(name: &str, params: Vec<&str>, body: Vec<Statement>) -> Statement {
    Statement::FunctionDeclaration {
        declaration: FunctionDeclaration {
            id: name.to_string(),
            function: Function {
                id: Some(name.to_string()),
                params: params.into_iter().map(|p| Pattern::Id { id: p.to_string() }).collect(),
                body: body.into_iter().map(FunctionBodyStatement::Statement).collect(),
                generator: false,
            },
        },
    }
}

fn module(body: Vec<Statement>) -> Program {
    Program { source_type: SourceType::Module, body }
}

fn error(kind: ParseErrorKind, position: usize) -> ParseError {
    ParseError { kind, position }
}

#[test]
fn statements_are_parsed_in_order() {
    let source = "import x from './a.js'\nfunction f(a, b) { var c; let d }\nconst e";
    assert_eq!(
        parse(source),
        Ok(module(vec![
            import("x", "./a.js"),
            function(
                "f",
                vec!["a", "b"],
                vec![var(VariableDeclarationKind::Var, "c"), var(VariableDeclarationKind::Let, "d")]
            ),
            var(VariableDeclarationKind::Const, "e"),
        ]))
    );
    assert_eq!(parse(""), Ok(module(vec![])));
    assert_eq!(parse("  \n"), Ok(module(vec![])));
}

#[test]
fn imports_of_every_form_are_parsed() {
    let source = "import * as ns from 'x'; import {a, b as c , as as as} from \"y\"\nimport { } from 'z' import{d}from'w'";
    assert_eq!(
        parse(source),
        Ok(module(vec![
            namespace("ns", "x"),
            named(vec![("a", "a"), ("b", "c"), ("as", "as")], "y"),
            named(vec![], "z"),
            named(vec![("d", "d")], "w"),
        ]))
    );
    assert_eq!(parse("import * x from 'a'"), Err(error(ParseErrorKind::Token, 9)));
    assert_eq!(parse("import {a b} from 'x'"), Err(error(ParseErrorKind::Token, 10)));
    assert_eq!(parse("import {a,} from 'x'"), Err(error(ParseErrorKind::Identifier, 10)));
    assert_eq!(parse("import {a as} from 'x'"), Err(error(ParseErrorKind::Identifier, 12)));
    assert_eq!(parse("import {a from 'x'"), Err(error(ParseErrorKind::Token, 10)));
}

#[test]
fn declarations_take_required_modules_as_values() {
    assert_eq!(
        parse("const a = require('./a'); let b=require ( \"b\" )\nvar c"),
        Ok(module(vec![
            required(VariableDeclarationKind::Const, "a", "./a"),
            required(VariableDeclarationKind::Let, "b", "b"),
            var(VariableDeclarationKind::Var, "c"),
        ]))
    );
    assert_eq!(parse("var x = 5"), Err(error(ParseErrorKind::Token, 8)));
    assert_eq!(parse("var x = require(a)"), Err(error(ParseErrorKind::String, 16)));
    assert_eq!(parse("var x = require('a'"), Err(error(ParseErrorKind::Token, 19)));
    assert_eq!(parse("var x = require 'a'"), Err(error(ParseErrorKind::Token, 16)));
}

#[test]
fn white_space_and_comments_separate_tokens() {
    let source = "/* head */ import /* name */ x // local\n from \"a\" ; var /**/ y ;";
    assert_eq!(
        parse(source),
        Ok(module(vec![import("x", "a"), var(VariableDeclarationKind::Var, "y")]))
    );
    assert_eq!(
        parse("function f ( a , b ) { }"),
        Ok(module(vec![function("f", vec!["a", "b"], vec![])]))
    );
}

#[test]
fn statement_readers_stop_after_the_statement() {
    let text = chars("import x from 'a' var y");
    assert_eq!(import_statement(&text, 0), Ok((import("x", "a"), 17)));
    assert_eq!(statement(&text, 0), Ok((import("x", "a"), 18)));
    assert_eq!(var_declaration(&text, 18), Ok((var(VariableDeclarationKind::Var, "y"), 23)));
    assert_eq!(var_declaration_kind(&chars("const"), 0), Ok((VariableDeclarationKind::Const, 5)));
    assert_eq!(
        function_declaration(&chars("function f(){}x"), 0),
        Ok((function("f", vec![], vec![]), 14))
    );
}

#[test]
fn syntax_errors_say_what_and_where() {
    assert_eq!(parse("var 1"), Err(error(ParseErrorKind::Identifier, 4)));
    assert_eq!(parse("var x y"), Err(error(ParseErrorKind::Trailing, 6)));
    assert_eq!(parse("var var"), Err(error(ParseErrorKind::ReservedWord, 4)));
    assert_eq!(parse("import x form 'a'"), Err(error(ParseErrorKind::Token, 9)));
    assert_eq!(parse("import x from a"), Err(error(ParseErrorKind::String, 14)));
    assert_eq!(parse("import x from 'a"), Err(error(ParseErrorKind::String, 16)));
    assert_eq!(parse("import x from 'a\\1'"), Err(error(ParseErrorKind::Escape, 16)));
    assert_eq!(parse("import x from '\\u{110000}'"), Err(error(ParseErrorKind::CodePoint, 15)));
    assert_eq!(parse("function f(a,) {}"), Err(error(ParseErrorKind::Identifier, 13)));
    assert_eq!(parse("function f(a {}"), Err(error(ParseErrorKind::Token, 13)));
    assert_eq!(parse("function f() var x"), Err(error(ParseErrorKind::Token, 13)));
    assert_eq!(parse("function f() { var x"), Err(error(ParseErrorKind::Token, 20)));
    assert_eq!(parse("x"), Err(error(ParseErrorKind::Trailing, 0)));
    assert_eq!(var_declaration(&chars("x"), 0), Err(error(ParseErrorKind::Statement, 0)));
    assert_eq!(null_literal(&chars("nul"), 0), Err(error(ParseErrorKind::Keyword, 0)));
    assert_eq!(boolean_literal(&chars("maybe"), 0), Err(error(ParseErrorKind::Keyword, 0)));
    assert_eq!(error(ParseErrorKind::CodePoint, 0).to_string(), "Code point too large");
    assert_eq!(ParseErrorKind::ReservedWord.describe(), "reserved word");
}

#[test]
fn printed_modules_are_read_back() {
    let program = module(vec![
        namespace("all", "./all.js"),
        named(vec![("a", "a"), ("b", "c")], "./some.js"),
        named(vec![], "./none.js"),
        import("x", "it's\n\\here\u{2028}"),
        function(
            "f",
            vec!["a", "$b", "_c"],
            vec![
                var(VariableDeclarationKind::Let, "d"),
                function("g", vec![], vec![]),
                var(VariableDeclarationKind::Const, "é"),
            ],
        ),
        var(VariableDeclarationKind::Var, "variable"),
        required(VariableDeclarationKind::Const, "lib", "./it's.js"),
    ]);
    let text = program.to_string();
    assert_eq!(
        text,
        "import * as all from './all.js';import {a,b as c} from './some.js';import {} from './none.js';import x from 'it\\'s\\n\\\\here\\u2028';function f(a,$b,_c){let d;function g(){};const é};var variable;const lib = require('./it\\'s.js')"
    );
    let read = parse(&text).unwrap();
    assert_eq!(read, program);
    assert_eq!(read.to_string(), text);
}

fn decimal(digits: &str, fraction: usize, exponent_negative: bool, exponent: &str) -> NumberLiteral {
    NumberLiteral {
        radix: 10,
        digits: digits.to_string(),
        fraction,
        exponent_negative,
        exponent: exponent.to_string(),
    }
}

fn whole(radix: u32, digits: &str) -> NumberLiteral {
    NumberLiteral {
        radix,
        digits: digits.to_string(),
        fraction: 0,
        exponent_negative: false,
        exponent: String::new(),
    }
}

#[test]
fn number_forms_have_their_values() {
    let number = |text: &str| numeric_literal(&chars(text), 0);
    assert_eq!(number("0"), Ok((decimal("0", 0, false, ""), 1)));
    assert_eq!(number("01"), Err(error(ParseErrorKind::Number, 0)));
    assert_eq!(number("12.50"), Ok((decimal("1250", 2, false, ""), 5)));
    assert_eq!(number("1."), Ok((decimal("1", 0, false, ""), 2)));
    assert_eq!(number(".5e-3"), Ok((decimal("5", 1, true, "3"), 5)));
    assert_eq!(number("2E+3x"), Ok((decimal("2", 0, false, "3"), 4)));
    assert_eq!(number("0b101"), Ok((whole(2, "101"), 5)));
    assert_eq!(number("0o17"), Ok((whole(8, "17"), 4)));
    assert_eq!(number("0xff"), Ok((whole(16, "ff"), 4)));
    assert_eq!(number("0x10000000000000000"), Ok((whole(16, "10000000000000000"), 19)));
    assert_eq!(number("18446744073709551616"), Ok((decimal("18446744073709551616", 0, false, ""), 20)));
    assert_eq!(
        number("1e99999999999999999999"),
        Ok((decimal("1", 0, false, "99999999999999999999"), 22))
    );
    assert_eq!(number("1e"), Err(error(ParseErrorKind::Number, 1)));
    assert_eq!(number("."), Err(error(ParseErrorKind::Number, 0)));
    assert_eq!(number("x"), Err(error(ParseErrorKind::Number, 0)));
    // a mark of a base without a digit of that base leaves the zero alone
    assert_eq!(number("0b2"), Ok((decimal("0", 0, false, ""), 1)));
    assert_eq!(binary_integer_literal(&chars("0b11"), 0), Ok((whole(2, "11"), 4)));
    assert_eq!(octal_integer_literal(&chars("0O7"), 0), Ok((whole(8, "7"), 3)));
    assert_eq!(hex_integer_literal(&chars("0Xa"), 0), Ok((whole(16, "a"), 3)));
    assert!(hex_integer_literal(&chars("0b1"), 0).is_err());
    assert_eq!(decimal_literal(&chars("0.25"), 0), Ok((decimal("025", 2, false, ""), 4)));
}

#[test]
fn escapes_stand_for_their_characters() {
    let escape = |text: &str| escape_sequence(&chars(text), 0);
    assert_eq!(escape("\\b"), Ok(('\u{8}', 2)));
    assert_eq!(escape("\\f"), Ok(('\u{c}', 2)));
    assert_eq!(escape("\\n"), Ok(('\n', 2)));
    assert_eq!(escape("\\r"), Ok(('\r', 2)));
    assert_eq!(escape("\\t"), Ok(('\t', 2)));
    assert_eq!(escape("\\v"), Ok(('\u{b}', 2)));
    assert_eq!(escape("\\'"), Ok(('\'', 2)));
    assert_eq!(escape("\\\\"), Ok(('\\', 2)));
    assert_eq!(escape("\\q"), Ok(('q', 2)));
    assert_eq!(escape("\\x41"), Ok(('A', 4)));
    assert_eq!(escape("\\xff"), Ok(('\u{ff}', 4)));
    assert_eq!(escape("\\u0041"), Ok(('A', 6)));
    assert_eq!(escape("\\u{1F600}"), Ok(('\u{1F600}', 9)));
    assert_eq!(escape("\\u{10FFFF}"), Ok(('\u{10FFFF}', 10)));
    assert_eq!(escape("\\u{110000}"), Err(error(ParseErrorKind::CodePoint, 0)));
    assert_eq!(escape("\\u{FFFFFFFFFFFFFFFFFFFF}"), Err(error(ParseErrorKind::CodePoint, 0)));
    assert_eq!(escape("\\uD800"), Err(error(ParseErrorKind::CodePoint, 0)));
    assert_eq!(escape("\\u{}"), Err(error(ParseErrorKind::Escape, 0)));
    assert_eq!(escape("\\u{41"), Err(error(ParseErrorKind::Escape, 0)));
    assert_eq!(escape("\\x"), Err(error(ParseErrorKind::Escape, 0)));
    assert_eq!(escape("\\0"), Err(error(ParseErrorKind::Escape, 0)));
    assert_eq!(escape("\\\n"), Err(error(ParseErrorKind::Escape, 0)));
    assert_eq!(escape("a"), Err(error(ParseErrorKind::Escape, 0)));
    assert_eq!(hex_escape_sequence(&chars("\\x4"), 0), Err(error(ParseErrorKind::Escape, 0)));
    assert_eq!(escape("\\u{0000041}"), Ok(('A', 11)));
    assert_eq!(unicode_escape_sequence(&chars("\\u24"), 0), Ok(('$', 4)));
}

#[test]
fn comments_and_white_space_are_skipped() {
    assert_eq!(whitespace(&chars(" \t\n\u{a0}\u{2003}x"), 0), 5);
    assert_eq!(line_terminator(&chars("\r\nx"), 0), Some(2));
    assert_eq!(line_terminator(&chars("\rx"), 0), Some(1));
    assert_eq!(line_terminator(&chars("\u{2029}"), 0), Some(1));
    assert_eq!(line_terminator(&chars("x"), 0), None);
    assert_eq!(line_comment(&chars("// a\r\nb"), 0), Ok(((), 6)));
    assert_eq!(line_comment(&chars("// a"), 0), Err(error(ParseErrorKind::Comment, 0)));
    assert_eq!(block_comment(&chars("/* a */b"), 0), Ok(((), 7)));
    assert_eq!(block_comment(&chars("/* a"), 0), Err(error(ParseErrorKind::Comment, 0)));
    assert_eq!(block_comment(&chars("/*/"), 0), Err(error(ParseErrorKind::Comment, 0)));
    assert_eq!(skip_tokens(&chars("  /* a */ // b\n /**/x"), 0), 20);
    assert_eq!(skip_tokens(&chars(" /* open"), 0), 1);
    assert_eq!(skip_tokens(&chars("x"), 5), 5);
}

#[test]
fn identifiers_take_letters_of_any_script() {
    let name = |text: &str| identifier(&chars(text), 0);
    assert_eq!(name("été+"), Ok(("été".to_string(), 3)));
    assert_eq!(name("π2"), Ok(("π2".to_string(), 2)));
    assert_eq!(name("a\\u0062c"), Ok(("abc".to_string(), 8)));
    assert_eq!(name("\\u006eull"), Err(error(ParseErrorKind::ReservedWord, 0)));
    assert_eq!(name("nullable"), Ok(("nullable".to_string(), 8)));
    assert_eq!(name("2a"), Err(error(ParseErrorKind::Identifier, 0)));
    // a middle dot continues an identifier and begins none
    assert_eq!(name("a\u{b7}b"), Ok(("a\u{b7}b".to_string(), 3)));
    assert_eq!(name("\u{b7}"), Err(error(ParseErrorKind::Identifier, 0)));
    assert_eq!(name("a\u{00d7}"), Ok(("a".to_string(), 1)));
}

#[test]
fn strings_regexes_and_templates_report_errors() {
    assert_eq!(string_literal(&chars("x"), 0), Err(error(ParseErrorKind::String, 0)));
    assert_eq!(string_literal(&chars("'a\nb'"), 0), Err(error(ParseErrorKind::String, 2)));
    assert_eq!(string_literal(&chars("\"a'b\" "), 0), Ok(("a'b".to_string(), 5)));
    assert_eq!(regex_literal(&chars("x"), 0), Err(error(ParseErrorKind::Regex, 0)));
    assert_eq!(regex_literal(&chars("/a"), 0), Err(error(ParseErrorKind::Regex, 0)));
    assert_eq!(regex_literal(&chars("/[a/"), 0), Err(error(ParseErrorKind::Regex, 0)));
    assert_eq!(template_head(&chars("`a`"), 0), Err(error(ParseErrorKind::Template, 0)));
    assert_eq!(template_middle(&chars("}a"), 0), Err(error(ParseErrorKind::Template, 0)));
    assert_eq!(template_tail(&chars("a"), 0), Err(error(ParseErrorKind::Template, 0)));
    assert!(template_tail(&chars("} $x \\q"), 0).is_ok());
}

#[test]
fn visitors_are_sent_to_trees() {
    let program = parse("import a from 'x' var b import c from 'y'").unwrap();
    let mut collector = ImportCollector::new();
    program.accept(&mut collector);
    assert_eq!(collector.sources, vec!["x".to_string(), "y".to_string()]);
    program.body[0].accept(&mut collector);
    program.body[1].accept(&mut collector);
    assert_eq!(collector.sources, vec!["x".to_string(), "y".to_string(), "x".to_string()]);
}

#[test]
fn places_are_lines_and_columns() {
    let text = chars("ab\ncd\r\nef\rg\u{2028}h");
    let at = |offset: usize| position_of(&text, offset);
    assert_eq!(at(0), Position { line: 1, column: 1 });
    assert_eq!(at(2), Position { line: 1, column: 3 });
    assert_eq!(at(3), Position { line: 2, column: 1 });
    assert_eq!(at(5), Position { line: 2, column: 3 });
    // between a carriage return and its line feed the line has not ended
    assert_eq!(at(6), Position { line: 2, column: 4 });
    assert_eq!(at(7), Position { line: 3, column: 1 });
    assert_eq!(at(10), Position { line: 4, column: 1 });
    assert_eq!(at(12), Position { line: 5, column: 1 });
    assert_eq!(at(13), Position { line: 5, column: 2 });
    let source = "var a\nvar 1";
    let e = parse(source).unwrap_err();
    assert_eq!(e.position_in(source), Some(Position { line: 2, column: 5 }));
    assert_eq!(e.position_in("var"), None);
}
