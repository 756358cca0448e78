//! The printer: the text of a syntax tree, written so that it reads back as
//! the same tree wherever the grammar can read it.

use vstd::prelude::*;
use crate::javascript::ast::{
    ArrowFunctionBody, AssignmentLeft, AssignmentOperator, BinaryOperator, CatchClause,
    Expression, ForInLeft, ForInit, Function, FunctionBodyStatement, FunctionDeclaration,
    ImportBinding, ImportSpecifier, Literal, NullLiteral, NumberLiteral, Pattern, Program,
    Property, PropertyKey, PropertyKind, RegexLiteral, Statement, SwitchCase, TemplateElement,
    UnaryOperator, UpdateOperator, VariableDeclaration, VariableDeclarationKind,
    VariableDeclarator,
};
use crate::javascript::syntax::{
    arrow_body_text, assignment_left_text, assignment_operator_text, binary_operator_text,
    binary_precedence, braced_text, catch_clause_text, declaration_text, declarator_text,
    declarators_text, expression_text, expressions_text, for_in_left_text, for_init_text,
    function_body_statement_text, function_body_text, function_declaration_text, function_text,
    import_binding_text, import_bindings_text, import_text, kind_text, pattern_text,
    patterns_text, precedence, program_text, properties_text, property_key_text, property_text,
    stands_alone, statement_text, statements_text, switch_case_text, switch_cases_text,
    template_text, unary_operator_text, update_operator_text, wrapped_text,
};
use crate::text::{append_str, from_chars, lemma_concat_assoc, lemma_concat_empty};

verus! {

broadcast use {lemma_concat_assoc, lemma_concat_empty};

// ---------------------------------------------------------------------------
// Literals
// ---------------------------------------------------------------------------

/// A number as a literal: its digits after the prefix of its base, or as a
/// decimal number.
pub open spec fn number_text(n: NumberLiteral) -> Seq<char> {
    if n.radix == 2 {
        "0b"@ + n.digits@
    } else if n.radix == 8 {
        "0o"@ + n.digits@
    } else if n.radix == 16 {
        "0x"@ + n.digits@
    } else {
        pointed_text(n.digits@, n.fraction as int) + exponent_text(n.exponent_negative, n.exponent@)
    }
}

/// One character of a string as it stands between single quotes.
pub open spec fn escaped_char(c: char) -> Seq<char> {
    if c == '\'' {
        seq!['\\', '\'']
    } else if c == '\\' {
        seq!['\\', '\\']
    } else if c == '\n' {
        seq!['\\', 'n']
    } else if c == '\r' {
        seq!['\\', 'r']
    } else if c == '\u{2028}' {
        seq!['\\', 'u', '2', '0', '2', '8']
    } else if c == '\u{2029}' {
        seq!['\\', 'u', '2', '0', '2', '9']
    } else {
        seq![c]
    }
}

/// The first `n` characters of `s`, each escaped.
pub open spec fn escaped_text(s: Seq<char>, n: int) -> Seq<char>
    decreases n,
{
    if n <= 0 {
        Seq::empty()
    } else {
        escaped_text(s, n - 1) + escaped_char(s[n - 1])
    }
}

/// A string as a literal between single quotes.
pub open spec fn string_text(s: Seq<char>) -> Seq<char> {
    seq!['\''] + escaped_text(s, s.len() as int) + seq!['\'']
}

pub open spec fn regex_text(r: RegexLiteral) -> Seq<char> {
    seq!['/'] + r.pattern@ + seq!['/'] + r.flags@
}

pub open spec fn literal_text(l: Literal) -> Seq<char> {
    match l {
        Literal::StringLiteral(s) => string_text(s@),
        Literal::BooleanLiteral(b) => if b { "true"@ } else { "false"@ },
        Literal::NullLiteral(_) => "null"@,
        Literal::NumberLiteral(n) => number_text(n),
        Literal::RegexLiteral(r) => regex_text(r),
    }
}

/// The exponent of a decimal number as it is written, or nothing.
pub open spec fn exponent_text(negative: bool, exponent: Seq<char>) -> Seq<char> {
    if exponent.len() == 0 {
        Seq::empty()
    } else if negative {
        seq!['e', '-'] + exponent
    } else {
        seq!['e'] + exponent
    }
}

/// The digits of a decimal number with the point where it belongs.
pub open spec fn pointed_text(digits: Seq<char>, fraction: int) -> Seq<char> {
    let split = if fraction < digits.len() { digits.len() - fraction } else { 0 };
    if split < digits.len() {
        digits.take(split) + (seq!['.'] + digits.skip(split))
    } else {
        digits.take(split)
    }
}

fn write_pointed(digits: &str, fraction: usize, out: &mut Vec<char>)
    ensures
        final(out)@ == old(out)@ + pointed_text(digits@, fraction as int),
{
    let d = crate::text::to_chars(digits);
    let split = if fraction < d.len() { d.len() - fraction } else { 0 };
    let mut piece: Vec<char> = Vec::new();
    crate::text::append_chars(&mut piece, &d, 0, split);
    if split < d.len() {
        piece.push('.');
        crate::text::append_chars(&mut piece, &d, split, d.len());
    }
    proof {
        assert(piece@ =~= pointed_text(digits@, fraction as int));
    }
    crate::text::append_chars(out, &piece, 0, piece.len());
    proof {
        assert(piece@.subrange(0, piece@.len() as int) =~= piece@);
    }
}

fn write_exponent(negative: bool, exponent: &str, out: &mut Vec<char>)
    ensures
        final(out)@ == old(out)@ + exponent_text(negative, exponent@),
{
    let e = crate::text::to_chars(exponent);
    let mut piece: Vec<char> = Vec::new();
    if e.len() > 0 {
        piece.push('e');
        if negative {
            piece.push('-');
        }
        crate::text::append_chars(&mut piece, &e, 0, e.len());
    }
    proof {
        assert(e@.subrange(0, e@.len() as int) =~= e@);
        assert(piece@ =~= exponent_text(negative, exponent@));
    }
    crate::text::append_chars(out, &piece, 0, piece.len());
    proof {
        assert(piece@.subrange(0, piece@.len() as int) =~= piece@);
    }
}

fn write_number(n: &NumberLiteral, out: &mut Vec<char>)
    ensures
        final(out)@ == old(out)@ + number_text(*n),
{
    if n.radix == 2 {
        append_str(out, "0b");
        append_str(out, n.digits.as_str());
    } else if n.radix == 8 {
        append_str(out, "0o");
        append_str(out, n.digits.as_str());
    } else if n.radix == 16 {
        append_str(out, "0x");
        append_str(out, n.digits.as_str());
    } else {
        write_pointed(n.digits.as_str(), n.fraction, out);
        write_exponent(n.exponent_negative, n.exponent.as_str(), out);
    }
}

fn write_escaped_char(c: char, out: &mut Vec<char>)
    ensures
        final(out)@ == old(out)@ + escaped_char(c),
{
    if c == '\'' {
        out.push('\\');
        out.push('\'');
    } else if c == '\\' {
        out.push('\\');
        out.push('\\');
    } else if c == '\n' {
        out.push('\\');
        out.push('n');
    } else if c == '\r' {
        out.push('\\');
        out.push('r');
    } else if c == '\u{2028}' {
        append_str(out, "\\u2028");
        proof {
            reveal_strlit("\\u2028");
            assert("\\u2028"@ =~= escaped_char(c));
        }
    } else if c == '\u{2029}' {
        append_str(out, "\\u2029");
        proof {
            reveal_strlit("\\u2029");
            assert("\\u2029"@ =~= escaped_char(c));
        }
    } else {
        out.push(c);
    }
    assert(out@ =~= old(out)@ + escaped_char(c));
}

pub(crate) fn write_string(s: &str, out: &mut Vec<char>)
    ensures
        final(out)@ == old(out)@ + string_text(s@),
{
    out.push('\'');
    let ghost base = out@;
    for c in it: s.chars()
        invariant
            it.seq() == s@,
            out@ == base + escaped_text(s@, it.index() as int),
    {
        write_escaped_char(c, out);
        assert(out@ =~= base + escaped_text(s@, it.index() + 1));
    }
    out.push('\'');
    assert(out@ =~= old(out)@ + string_text(s@));
}

fn write_regex(r: &RegexLiteral, out: &mut Vec<char>)
    ensures
        final(out)@ == old(out)@ + regex_text(*r),
{
    out.push('/');
    append_str(out, r.pattern.as_str());
    out.push('/');
    append_str(out, r.flags.as_str());
    assert(out@ =~= old(out)@ + regex_text(*r));
}

pub(crate) fn write_literal(l: &Literal, out: &mut Vec<char>)
    ensures
        final(out)@ == old(out)@ + literal_text(*l),
{
    match l {
        Literal::StringLiteral(s) => write_string(s.as_str(), out),
        Literal::BooleanLiteral(b) => {
            if *b {
                append_str(out, "true");
            } else {
                append_str(out, "false");
            }
        },
        Literal::NullLiteral(_) => append_str(out, "null"),
        Literal::NumberLiteral(n) => write_number(n, out),
        Literal::RegexLiteral(r) => write_regex(r, out),
    }
}

impl NullLiteral {
    pub fn to_string(&self) -> (s: String)
        ensures
            s@ == "null"@,
    {
        "null".to_owned()
    }
}

impl NumberLiteral {
    pub fn to_string(&self) -> (s: String)
        ensures
            s@ == number_text(*self),
    {
        let mut out: Vec<char> = Vec::new();
        write_number(self, &mut out);
        from_chars(&out, 0, out.len())
    }
}

impl RegexLiteral {
    pub fn to_string(&self) -> (s: String)
        ensures
            s@ == regex_text(*self),
    {
        let mut out: Vec<char> = Vec::new();
        write_regex(self, &mut out);
        from_chars(&out, 0, out.len())
    }
}

impl Literal {
    pub fn to_string(&self) -> (s: String)
        ensures
            s@ == literal_text(*self),
    {
        let mut out: Vec<char> = Vec::new();
        write_literal(self, &mut out);
        from_chars(&out, 0, out.len())
    }
}

// ---------------------------------------------------------------------------
// Operators
// ---------------------------------------------------------------------------

fn write_kind(k: &VariableDeclarationKind, out: &mut Vec<char>)
    ensures
        final(out)@ == old(out)@ + kind_text(*k),
{
    match k {
        VariableDeclarationKind::Var => append_str(out, "var"),
        VariableDeclarationKind::Let => append_str(out, "let"),
        VariableDeclarationKind::Const => append_str(out, "const"),
    }
}

fn write_unary_operator(op: &UnaryOperator, out: &mut Vec<char>)
    ensures
        final(out)@ == old(out)@ + unary_operator_text(*op),
{
    match op {
        UnaryOperator::Minus => append_str(out, "-"),
        UnaryOperator::Plus => append_str(out, "+"),
        UnaryOperator::Not => append_str(out, "!"),
        UnaryOperator::BitwiseNot => append_str(out, "~"),
        UnaryOperator::Typeof => append_str(out, "typeof "),
        UnaryOperator::Void => append_str(out, "void "),
        UnaryOperator::Delete => append_str(out, "delete "),
    }
}

fn write_update_operator(op: &UpdateOperator, out: &mut Vec<char>)
    ensures
        final(out)@ == old(out)@ + update_operator_text(*op),
{
    match op {
        UpdateOperator::Increment => append_str(out, "++"),
        UpdateOperator::Decrement => append_str(out, "--"),
    }
}

fn write_binary_operator(op: &BinaryOperator, out: &mut Vec<char>)
    ensures
        final(out)@ == old(out)@ + binary_operator_text(*op),
{
    match op {
        BinaryOperator::EqEq => append_str(out, " == "),
        BinaryOperator::NotEq => append_str(out, " != "),
        BinaryOperator::EqEqEq => append_str(out, " === "),
        BinaryOperator::NotEqEq => append_str(out, " !== "),
        BinaryOperator::Lt => append_str(out, " < "),
        BinaryOperator::Lte => append_str(out, " <= "),
        BinaryOperator::Gt => append_str(out, " > "),
        BinaryOperator::Gte => append_str(out, " >= "),
        BinaryOperator::Shl => append_str(out, " << "),
        BinaryOperator::Shr => append_str(out, " >> "),
        BinaryOperator::UnsignedShr => append_str(out, " >>> "),
        BinaryOperator::Plus => append_str(out, " + "),
        BinaryOperator::Minus => append_str(out, " - "),
        BinaryOperator::Multiply => append_str(out, " * "),
        BinaryOperator::Divide => append_str(out, " / "),
        BinaryOperator::Mod => append_str(out, " % "),
        BinaryOperator::BitwiseOr => append_str(out, " | "),
        BinaryOperator::Or => append_str(out, " || "),
        BinaryOperator::BitwiseXor => append_str(out, " ^ "),
        BinaryOperator::BitwiseAnd => append_str(out, " & "),
        BinaryOperator::And => append_str(out, " && "),
        BinaryOperator::In => append_str(out, " in "),
        BinaryOperator::InstanceOf => append_str(out, " instanceof "),
    }
}

fn write_assignment_operator(op: &AssignmentOperator, out: &mut Vec<char>)
    ensures
        final(out)@ == old(out)@ + assignment_operator_text(*op),
{
    match op {
        AssignmentOperator::Eq => append_str(out, " = "),
        AssignmentOperator::PlusEq => append_str(out, " += "),
        AssignmentOperator::MinusEq => append_str(out, " -= "),
        AssignmentOperator::MultiplyEq => append_str(out, " *= "),
        AssignmentOperator::DivideEq => append_str(out, " /= "),
        AssignmentOperator::ModEq => append_str(out, " %= "),
        AssignmentOperator::ShlEq => append_str(out, " <<= "),
        AssignmentOperator::ShrEq => append_str(out, " >>= "),
        AssignmentOperator::UnsignedShrEq => append_str(out, " >>>= "),
        AssignmentOperator::BitwiseOrEq => append_str(out, " |= "),
        AssignmentOperator::BitwiseXorEq => append_str(out, " ^= "),
        AssignmentOperator::BitwiseAndEq => append_str(out, " &= "),
    }
}

fn binary_precedence_of(op: &BinaryOperator) -> (p: u8)
    ensures
        p as int == binary_precedence(*op),
        4 <= p <= 13,
{
    match op {
        BinaryOperator::Or => 4,
        BinaryOperator::And => 5,
        BinaryOperator::BitwiseOr => 6,
        BinaryOperator::BitwiseXor => 7,
        BinaryOperator::BitwiseAnd => 8,
        BinaryOperator::EqEq | BinaryOperator::NotEq | BinaryOperator::EqEqEq
        | BinaryOperator::NotEqEq => 9,
        BinaryOperator::Lt | BinaryOperator::Lte | BinaryOperator::Gt | BinaryOperator::Gte
        | BinaryOperator::In | BinaryOperator::InstanceOf => 10,
        BinaryOperator::Shl | BinaryOperator::Shr | BinaryOperator::UnsignedShr => 11,
        BinaryOperator::Plus | BinaryOperator::Minus => 12,
        BinaryOperator::Multiply | BinaryOperator::Divide | BinaryOperator::Mod => 13,
    }
}

fn precedence_of(e: &Expression) -> (p: u8)
    ensures
        p as int == precedence(*e),
{
    match e {
        Expression::Sequence { .. } => 1,
        Expression::Assignment { .. } | Expression::ArrowFunction { .. } | Expression::Yield { .. }
        | Expression::Spread { .. } => 2,
        Expression::Conditional { .. } => 3,
        Expression::Binary { operator, .. } => binary_precedence_of(operator),
        Expression::Unary { .. } | Expression::Update { .. } => 14,
        Expression::Literal { literal: Literal::NumberLiteral(_) } => 15,
        Expression::Call { .. } | Expression::New { .. } | Expression::TaggedTemplate { .. } => 16,
        Expression::Member { .. } => 17,
        _ => 18,
    }
}

fn can_stand_alone(e: &Expression) -> (b: bool)
    ensures
        b == stands_alone(*e),
{
    match e {
        Expression::Id { .. } | Expression::Literal { .. } | Expression::This
        | Expression::Array { .. } | Expression::New { .. } | Expression::Unary { .. }
        | Expression::TemplateLiteral { .. } => true,
        Expression::Call { callee, .. } => match &**callee {
            Expression::Id { .. } => true,
            _ => false,
        },
        _ => false,
    }
}

impl VariableDeclarationKind {
    pub fn to_string(&self) -> (s: String)
        ensures
            s@ == kind_text(*self),
    {
        let mut out: Vec<char> = Vec::new();
        write_kind(self, &mut out);
        from_chars(&out, 0, out.len())
    }
}

impl PropertyKind {
    /// What stands before the key of a property of this kind.
    pub fn to_string(&self) -> (s: String)
        ensures
            s@ == (match *self {
                PropertyKind::Init => Seq::<char>::empty(),
                PropertyKind::Get => "get "@,
                PropertyKind::Setter => "set "@,
            }),
    {
        match self {
            PropertyKind::Init => String::new(),
            PropertyKind::Get => "get ".to_owned(),
            PropertyKind::Setter => "set ".to_owned(),
        }
    }
}

// ---------------------------------------------------------------------------
// Expressions and patterns
// ---------------------------------------------------------------------------

fn write_expression(e: &Expression, out: &mut Vec<char>)
    ensures
        final(out)@ == old(out)@ + expression_text(*e),
    decreases e, 0int,
{
    let ghost base = out@;
    match e {
        Expression::Id { id } => append_str(out, id.as_str()),
        Expression::Literal { literal } => write_literal(literal, out),
        Expression::This => append_str(out, "this"),
        Expression::Super => append_str(out, "super"),
        Expression::Array { elements } => {
            append_str(out, "[");
            write_expressions(elements, out);
            append_str(out, "]");
            assert(out@ == base + expression_text(*e));
        },
        Expression::Object { properties } => {
            append_str(out, "{");
            write_properties(properties, out);
            append_str(out, "}");
            assert(out@ == base + expression_text(*e));
        },
        Expression::Function { function } => {
            append_str(out, "function");
            if function.generator {
                append_str(out, "*");
            }
            match &function.id {
                Some(id) => {
                    append_str(out, " ");
                    append_str(out, id.as_str());
                },
                None => {},
            }
            write_function(function, out);
            assert(out@ == base + expression_text(*e));
        },
        Expression::Unary { operator, prefix, argument } => {
            write_unary_operator(operator, out);
            write_wrapped(argument, 15, out);
            assert(out@ == base + expression_text(*e));
        },
        Expression::Update { operator, argument, prefix } => {
            if *prefix {
                write_update_operator(operator, out);
                write_wrapped(argument, 15, out);
            } else {
                write_wrapped(argument, 15, out);
                write_update_operator(operator, out);
            }
            assert(out@ == base + expression_text(*e));
        },
        Expression::Binary { operator, left, right } => {
            let p = binary_precedence_of(operator);
            write_wrapped(left, p, out);
            write_binary_operator(operator, out);
            write_wrapped(right, p + 1, out);
            assert(out@ == base + expression_text(*e));
        },
        Expression::Assignment { operator, left, right } => {
            write_assignment_left(left, out);
            write_assignment_operator(operator, out);
            write_wrapped(right, 2, out);
            assert(out@ == base + expression_text(*e));
        },
        Expression::Member { object, property, computed } => {
            let named = match &**property {
                Expression::Id { .. } => !*computed,
                _ => false,
            };
            write_wrapped(object, 16, out);
            if named {
                append_str(out, ".");
                write_expression(property, out);
            } else {
                append_str(out, "[");
                write_expression(property, out);
                append_str(out, "]");
            }
            assert(out@ == base + expression_text(*e));
        },
        Expression::Conditional { test, alternate, consequent } => {
            write_wrapped(test, 4, out);
            append_str(out, " ? ");
            write_wrapped(consequent, 2, out);
            append_str(out, " : ");
            write_wrapped(alternate, 2, out);
            assert(out@ == base + expression_text(*e));
        },
        Expression::Call { callee, arguments } => {
            write_wrapped(callee, 16, out);
            append_str(out, "(");
            write_expressions(arguments, out);
            append_str(out, ")");
            assert(out@ == base + expression_text(*e));
        },
        Expression::New { callee, arguments } => {
            append_str(out, "new ");
            write_wrapped(callee, 18, out);
            append_str(out, "(");
            write_expressions(arguments, out);
            append_str(out, ")");
            assert(out@ == base + expression_text(*e));
        },
        Expression::Sequence { expressions } => write_expressions(expressions, out),
        Expression::Spread { expression } => {
            append_str(out, "...");
            write_wrapped(expression, 2, out);
            assert(out@ == base + expression_text(*e));
        },
        Expression::ArrowFunction { body, expression } => {
            append_str(out, "()=>");
            write_arrow_body(body, out);
            assert(out@ == base + expression_text(*e));
        },
        Expression::Yield { argument, delegate } => {
            if *delegate {
                append_str(out, "yield*");
            } else {
                append_str(out, "yield");
            }
            match argument {
                Some(a) => {
                    append_str(out, " ");
                    write_wrapped(a, 2, out);
                },
                None => {},
            }
            assert(out@ == base + expression_text(*e));
        },
        Expression::TemplateLiteral { quasis, expressions } => {
            append_str(out, "`");
            write_template(quasis, expressions, out);
            append_str(out, "`");
            assert(out@ == base + expression_text(*e));
        },
        Expression::TaggedTemplate { tag, quasi } => {
            write_wrapped(tag, 16, out);
            write_expression(quasi, out);
            assert(out@ == base + expression_text(*e));
        },
    }
}

fn write_wrapped(e: &Expression, min: u8, out: &mut Vec<char>)
    ensures
        final(out)@ == old(out)@ + wrapped_text(*e, min as int),
    decreases e, 1int,
{
    if precedence_of(e) < min {
        append_str(out, "(");
        write_expression(e, out);
        append_str(out, ")");
        assert(out@ == old(out)@ + wrapped_text(*e, min as int));
    } else {
        write_expression(e, out);
    }
}

fn write_expressions(v: &Vec<Expression>, out: &mut Vec<char>)
    ensures
        final(out)@ == old(out)@ + expressions_text(v@, v@.len() as int),
    decreases v,
{
    let ghost base = out@;
    let mut i: usize = 0;
    assert(out@ == base + expressions_text(v@, 0));
    while i < v.len()
        invariant
            i <= v.len(),
            out@ == base + expressions_text(v@, i as int),
        decreases v.len() - i,
    {
        if i > 0 {
            append_str(out, ",");
        }
        write_wrapped(&v[i], 2, out);
        i += 1;
        assert(out@ == base + expressions_text(v@, i as int));
    }
}

fn write_template(quasis: &Vec<TemplateElement>, expressions: &Vec<Expression>, out: &mut Vec<char>)
    ensures
        final(out)@ == old(out)@ + template_text(quasis@, expressions@, quasis@.len() as int),
    decreases expressions,
{
    let ghost base = out@;
    let mut i: usize = 0;
    assert(out@ == base + template_text(quasis@, expressions@, 0));
    while i < quasis.len()
        invariant
            i <= quasis.len(),
            out@ == base + template_text(quasis@, expressions@, i as int),
        decreases quasis.len() - i,
    {
        if i > 0 && i - 1 < expressions.len() {
            append_str(out, "${");
            write_expression(&expressions[i - 1], out);
            append_str(out, "}");
        }
        append_str(out, quasis[i].raw.as_str());
        i += 1;
        assert(out@ == base + template_text(quasis@, expressions@, i as int));
    }
}

fn write_assignment_left(l: &AssignmentLeft, out: &mut Vec<char>)
    ensures
        final(out)@ == old(out)@ + assignment_left_text(*l),
    decreases l,
{
    match l {
        AssignmentLeft::Pattern(p) => write_pattern(p, out),
        AssignmentLeft::Expression(e) => write_wrapped(e, 16, out),
    }
}

fn write_arrow_body(b: &ArrowFunctionBody, out: &mut Vec<char>)
    ensures
        final(out)@ == old(out)@ + arrow_body_text(*b),
    decreases b,
{
    let ghost base = out@;
    match b {
        ArrowFunctionBody::FunctionBody(body) => {
            append_str(out, "{");
            write_function_body(body, out);
            append_str(out, "}");
            assert(out@ == base + arrow_body_text(*b));
        },
        ArrowFunctionBody::Expression(e) => {
            let object = match e {
                Expression::Object { .. } => true,
                _ => false,
            };
            if object {
                append_str(out, "(");
                write_expression(e, out);
                append_str(out, ")");
                assert(out@ == base + arrow_body_text(*b));
            } else {
                write_wrapped(e, 2, out);
            }
        },
    }
}

fn write_property_key(k: &PropertyKey, out: &mut Vec<char>)
    ensures
        final(out)@ == old(out)@ + property_key_text(*k),
    decreases k,
{
    match k {
        PropertyKey::Literal(l) => write_literal(l, out),
        PropertyKey::Id(id) => append_str(out, id.as_str()),
        PropertyKey::Expression(e) => {
            append_str(out, "[");
            write_wrapped(e, 2, out);
            append_str(out, "]");
            assert(out@ == old(out)@ + property_key_text(*k));
        },
    }
}

fn write_property(p: &Property, out: &mut Vec<char>)
    ensures
        final(out)@ == old(out)@ + property_text(*p),
    decreases p,
{
    let ghost base = out@;
    let accessor: Option<&Function> = match &p.value {
        Expression::Function { function } => match p.kind {
            PropertyKind::Init => None,
            _ => Some(function),
        },
        _ => None,
    };
    match accessor {
        Some(function) => {
            match p.kind {
                PropertyKind::Setter => append_str(out, "set "),
                _ => append_str(out, "get "),
            }
            write_property_key(&p.key, out);
            write_function(function, out);
            assert(out@ == base + property_text(*p));
        },
        None => {
            write_property_key(&p.key, out);
            append_str(out, ":");
            write_wrapped(&p.value, 2, out);
            assert(out@ == base + property_text(*p));
        },
    }
}

fn write_properties(v: &Vec<Property>, out: &mut Vec<char>)
    ensures
        final(out)@ == old(out)@ + properties_text(v@, v@.len() as int),
    decreases v,
{
    let ghost base = out@;
    let mut i: usize = 0;
    assert(out@ == base + properties_text(v@, 0));
    while i < v.len()
        invariant
            i <= v.len(),
            out@ == base + properties_text(v@, i as int),
        decreases v.len() - i,
    {
        if i > 0 {
            append_str(out, ",");
        }
        write_property(&v[i], out);
        i += 1;
        assert(out@ == base + properties_text(v@, i as int));
    }
}

fn write_pattern(p: &Pattern, out: &mut Vec<char>)
    ensures
        final(out)@ == old(out)@ + pattern_text(*p),
    decreases p,
{
    let ghost base = out@;
    match p {
        Pattern::Id { id } => append_str(out, id.as_str()),
        Pattern::Object { properties } => {
            append_str(out, "{");
            write_patterns(properties, out);
            append_str(out, "}");
            assert(out@ == base + pattern_text(*p));
        },
        Pattern::Array { elements } => {
            append_str(out, "[");
            write_patterns(elements, out);
            append_str(out, "]");
            assert(out@ == base + pattern_text(*p));
        },
        Pattern::Rest => append_str(out, "..."),
        Pattern::Assignment { left, right } => {
            write_pattern(left, out);
            append_str(out, " = ");
            write_wrapped(right, 2, out);
            assert(out@ == base + pattern_text(*p));
        },
    }
}

fn write_patterns(v: &Vec<Pattern>, out: &mut Vec<char>)
    ensures
        final(out)@ == old(out)@ + patterns_text(v@, v@.len() as int),
    decreases v,
{
    let ghost base = out@;
    let mut i: usize = 0;
    assert(out@ == base + patterns_text(v@, 0));
    while i < v.len()
        invariant
            i <= v.len(),
            out@ == base + patterns_text(v@, i as int),
        decreases v.len() - i,
    {
        if i > 0 {
            append_str(out, ",");
        }
        write_pattern(&v[i], out);
        i += 1;
        assert(out@ == base + patterns_text(v@, i as int));
    }
}

fn write_function(f: &Function, out: &mut Vec<char>)
    ensures
        final(out)@ == old(out)@ + function_text(*f),
    decreases f,
{
    append_str(out, "(");
    write_patterns(&f.params, out);
    append_str(out, "){");
    write_function_body(&f.body, out);
    append_str(out, "}");
    assert(out@ == old(out)@ + function_text(*f));
}

fn write_function_body_statement(s: &FunctionBodyStatement, out: &mut Vec<char>)
    ensures
        final(out)@ == old(out)@ + function_body_statement_text(*s),
    decreases s,
{
    match s {
        FunctionBodyStatement::Statement(s) => write_statement(s, out),
        FunctionBodyStatement::Directive(d) => write_literal(&d.expression, out),
    }
}

fn write_function_body(v: &Vec<FunctionBodyStatement>, out: &mut Vec<char>)
    ensures
        final(out)@ == old(out)@ + function_body_text(v@, v@.len() as int),
    decreases v,
{
    let ghost base = out@;
    let mut i: usize = 0;
    assert(out@ == base + function_body_text(v@, 0));
    while i < v.len()
        invariant
            i <= v.len(),
            out@ == base + function_body_text(v@, i as int),
        decreases v.len() - i,
    {
        if i > 0 {
            append_str(out, ";");
        }
        write_function_body_statement(&v[i], out);
        i += 1;
        assert(out@ == base + function_body_text(v@, i as int));
    }
}

fn write_declarator(d: &VariableDeclarator, out: &mut Vec<char>)
    ensures
        final(out)@ == old(out)@ + declarator_text(*d),
    decreases d,
{
    write_pattern(&d.id, out);
    match &d.init {
        Some(e) => {
            append_str(out, " = ");
            write_wrapped(e, 2, out);
            assert(out@ == old(out)@ + declarator_text(*d));
        },
        None => {},
    }
}

fn write_declarators(v: &Vec<VariableDeclarator>, out: &mut Vec<char>)
    ensures
        final(out)@ == old(out)@ + declarators_text(v@, v@.len() as int),
    decreases v,
{
    let ghost base = out@;
    let mut i: usize = 0;
    assert(out@ == base + declarators_text(v@, 0));
    while i < v.len()
        invariant
            i <= v.len(),
            out@ == base + declarators_text(v@, i as int),
        decreases v.len() - i,
    {
        if i > 0 {
            append_str(out, ",");
        }
        write_declarator(&v[i], out);
        i += 1;
        assert(out@ == base + declarators_text(v@, i as int));
    }
}

fn write_declaration(d: &VariableDeclaration, out: &mut Vec<char>)
    ensures
        final(out)@ == old(out)@ + declaration_text(*d),
    decreases d,
{
    write_kind(&d.kind, out);
    append_str(out, " ");
    write_declarators(&d.declarations, out);
    assert(out@ == old(out)@ + declaration_text(*d));
}

fn write_function_declaration(d: &FunctionDeclaration, out: &mut Vec<char>)
    ensures
        final(out)@ == old(out)@ + function_declaration_text(*d),
    decreases d,
{
    if d.function.generator {
        append_str(out, "function* ");
    } else {
        append_str(out, "function ");
    }
    append_str(out, d.id.as_str());
    write_function(&d.function, out);
    assert(out@ == old(out)@ + function_declaration_text(*d));
}

fn write_import_binding(b: &ImportBinding, out: &mut Vec<char>)
    ensures
        final(out)@ == old(out)@ + import_binding_text(*b),
{
    if b.imported == b.local {
        append_str(out, b.local.as_str());
    } else {
        append_str(out, b.imported.as_str());
        append_str(out, " as ");
        append_str(out, b.local.as_str());
        assert(out@ == old(out)@ + import_binding_text(*b));
    }
}

fn write_import_bindings(v: &Vec<ImportBinding>, out: &mut Vec<char>)
    ensures
        final(out)@ == old(out)@ + import_bindings_text(v@, v@.len() as int),
{
    let ghost base = out@;
    let mut i: usize = 0;
    assert(out@ == base + import_bindings_text(v@, 0));
    while i < v.len()
        invariant
            i <= v.len(),
            out@ == base + import_bindings_text(v@, i as int),
        decreases v.len() - i,
    {
        if i > 0 {
            append_str(out, ",");
        }
        write_import_binding(&v[i], out);
        i += 1;
        assert(out@ == base + import_bindings_text(v@, i as int));
    }
}

fn write_import(specifier: &ImportSpecifier, source: &str, out: &mut Vec<char>)
    ensures
        final(out)@ == old(out)@ + import_text(*specifier, source@),
{
    match specifier {
        ImportSpecifier::Import(bindings) => {
            append_str(out, "import {");
            write_import_bindings(bindings, out);
            append_str(out, "} from ");
        },
        ImportSpecifier::ImportDefault(id) => {
            append_str(out, "import ");
            append_str(out, id.as_str());
            append_str(out, " from ");
        },
        ImportSpecifier::ImportNamespaced(id) => {
            append_str(out, "import * as ");
            append_str(out, id.as_str());
            append_str(out, " from ");
        },
    }
    write_string(source, out);
    assert(out@ == old(out)@ + import_text(*specifier, source@));
}

fn write_for_init(i: &ForInit, out: &mut Vec<char>)
    ensures
        final(out)@ == old(out)@ + for_init_text(*i),
    decreases i,
{
    match i {
        ForInit::VariableDeclaration(d) => write_declaration(d, out),
        ForInit::Expression(e) => write_expression(e, out),
    }
}

fn write_for_in_left(l: &ForInLeft, out: &mut Vec<char>)
    ensures
        final(out)@ == old(out)@ + for_in_left_text(*l),
    decreases l,
{
    match l {
        ForInLeft::VariableDeclaration(d) => write_declaration(d, out),
        ForInLeft::Pattern(p) => write_pattern(p, out),
    }
}

fn write_switch_case(c: &SwitchCase, out: &mut Vec<char>)
    ensures
        final(out)@ == old(out)@ + switch_case_text(*c),
    decreases c,
{
    match &c.test {
        Some(e) => {
            append_str(out, "case ");
            write_expression(e, out);
            append_str(out, ":");
        },
        None => append_str(out, "default:"),
    }
    if c.consequent.len() > 0 {
        write_statements(&c.consequent, out);
        append_str(out, ";");
    }
    assert(out@ == old(out)@ + switch_case_text(*c));
}

fn write_switch_cases(v: &Vec<SwitchCase>, out: &mut Vec<char>)
    ensures
        final(out)@ == old(out)@ + switch_cases_text(v@, v@.len() as int),
    decreases v,
{
    let ghost base = out@;
    let mut i: usize = 0;
    assert(out@ == base + switch_cases_text(v@, 0));
    while i < v.len()
        invariant
            i <= v.len(),
            out@ == base + switch_cases_text(v@, i as int),
        decreases v.len() - i,
    {
        write_switch_case(&v[i], out);
        i += 1;
        assert(out@ == base + switch_cases_text(v@, i as int));
    }
}

fn write_catch_clause(c: &CatchClause, out: &mut Vec<char>)
    ensures
        final(out)@ == old(out)@ + catch_clause_text(*c),
    decreases c,
{
    append_str(out, "catch(");
    write_pattern(&c.param, out);
    append_str(out, "){");
    write_statements(&c.body, out);
    append_str(out, "}");
    assert(out@ == old(out)@ + catch_clause_text(*c));
}

fn write_optional_expression(e: &Option<Expression>, out: &mut Vec<char>)
    ensures
        final(out)@ == old(out)@ + (match *e {
            Some(e) => expression_text(e),
            None => Seq::<char>::empty(),
        }),
    decreases e,
{
    match e {
        Some(e) => write_expression(e, out),
        None => {},
    }
}

fn write_optional_for_init(i: &Option<ForInit>, out: &mut Vec<char>)
    ensures
        final(out)@ == old(out)@ + (match *i {
            Some(i) => for_init_text(i),
            None => Seq::<char>::empty(),
        }),
    decreases i,
{
    match i {
        Some(i) => write_for_init(i, out),
        None => {},
    }
}

fn write_handler(h: &Option<CatchClause>, out: &mut Vec<char>)
    ensures
        final(out)@ == old(out)@ + (match *h {
            Some(h) => catch_clause_text(h),
            None => Seq::<char>::empty(),
        }),
    decreases h,
{
    match h {
        Some(h) => write_catch_clause(h, out),
        None => {},
    }
}

fn write_finalizer(f: &Option<Vec<Statement>>, out: &mut Vec<char>)
    ensures
        final(out)@ == old(out)@ + (match *f {
            Some(f) => "finally{"@ + statements_text(f@, f@.len() as int) + "}"@,
            None => Seq::<char>::empty(),
        }),
    decreases f,
{
    match f {
        Some(f) => {
            append_str(out, "finally{");
            write_statements(f, out);
            append_str(out, "}");
        },
        None => {},
    }
}

pub(crate) fn write_statement(s: &Statement, out: &mut Vec<char>)
    ensures
        final(out)@ == old(out)@ + statement_text(*s),
    decreases s, 0int,
{
    let ghost base = out@;
    match s {
        Statement::Block { body } => {
            append_str(out, "{");
            write_statements(body, out);
            append_str(out, "}");
            assert(out@ == base + statement_text(*s));
        },
        Statement::Expression { expression } => {
            if can_stand_alone(expression) {
                write_expression(expression, out);
            } else {
                append_str(out, "(");
                write_expression(expression, out);
                append_str(out, ")");
                assert(out@ == base + statement_text(*s));
            }
        },
        Statement::Empty => append_str(out, ";"),
        Statement::Debugger => append_str(out, "debugger"),
        Statement::With { object, body } => {
            append_str(out, "with(");
            write_expression(object, out);
            append_str(out, ")");
            write_statement(body, out);
            assert(out@ == base + statement_text(*s));
        },
        Statement::Return { argument } => {
            match argument {
                Some(e) => {
                    append_str(out, "return ");
                    write_expression(e, out);
                    assert(out@ == base + statement_text(*s));
                },
                None => append_str(out, "return"),
            }
        },
        Statement::Label { label, body } => {
            append_str(out, label.as_str());
            append_str(out, ":");
            write_statement(body, out);
            assert(out@ == base + statement_text(*s));
        },
        Statement::Break { label } => {
            match label {
                Some(l) => {
                    append_str(out, "break ");
                    append_str(out, l.as_str());
                    assert(out@ == base + statement_text(*s));
                },
                None => append_str(out, "break"),
            }
        },
        Statement::Continue { label } => {
            match label {
                Some(l) => {
                    append_str(out, "continue ");
                    append_str(out, l.as_str());
                    assert(out@ == base + statement_text(*s));
                },
                None => append_str(out, "continue"),
            }
        },
        Statement::If { test, consequent, alternate } => {
            append_str(out, "if(");
            write_expression(test, out);
            append_str(out, ")");
            match alternate {
                Some(a) => {
                    write_braced(consequent, out);
                    append_str(out, "else ");
                    write_statement(a, out);
                },
                None => write_statement(consequent, out),
            }
            assert(out@ == base + statement_text(*s));
        },
        Statement::Switch { discriminant, cases } => {
            append_str(out, "switch(");
            write_expression(discriminant, out);
            append_str(out, "){");
            write_switch_cases(cases, out);
            append_str(out, "}");
            assert(out@ == base + statement_text(*s));
        },
        Statement::Throw { argument } => {
            append_str(out, "throw ");
            write_expression(argument, out);
            assert(out@ == base + statement_text(*s));
        },
        Statement::Try { block, handler, finalizer } => {
            append_str(out, "try{");
            write_statements(block, out);
            append_str(out, "}");
            write_handler(handler, out);
            write_finalizer(finalizer, out);
            assert(out@ == base + statement_text(*s));
        },
        Statement::While { test, body } => {
            append_str(out, "while(");
            write_expression(test, out);
            append_str(out, ")");
            write_statement(body, out);
            assert(out@ == base + statement_text(*s));
        },
        Statement::DoWhile { body, test } => {
            append_str(out, "do");
            write_braced(body, out);
            append_str(out, "while(");
            write_expression(test, out);
            append_str(out, ")");
            assert(out@ == base + statement_text(*s));
        },
        Statement::For { init, test, update, body } => {
            append_str(out, "for(");
            write_optional_for_init(init, out);
            append_str(out, ";");
            write_optional_expression(test, out);
            append_str(out, ";");
            write_optional_expression(update, out);
            append_str(out, ")");
            write_statement(body, out);
            assert(out@ == base + statement_text(*s));
        },
        Statement::ForInOf { left, right, body } => {
            append_str(out, "for(");
            write_for_in_left(left, out);
            append_str(out, " in ");
            write_expression(right, out);
            append_str(out, ")");
            write_statement(body, out);
            assert(out@ == base + statement_text(*s));
        },
        Statement::FunctionDeclaration { declaration } => write_function_declaration(
            declaration,
            out,
        ),
        Statement::VariableDeclaration { declaration } => write_declaration(declaration, out),
        Statement::Import(specifier, source) => write_import(specifier, source.as_str(), out),
    }
}

fn write_braced(s: &Statement, out: &mut Vec<char>)
    ensures
        final(out)@ == old(out)@ + braced_text(*s),
    decreases s, 1int,
{
    let block = match s {
        Statement::Block { .. } => true,
        _ => false,
    };
    if block {
        write_statement(s, out);
    } else {
        append_str(out, "{");
        write_statement(s, out);
        append_str(out, "}");
        assert(out@ == old(out)@ + braced_text(*s));
    }
}

pub(crate) fn write_statements(v: &Vec<Statement>, out: &mut Vec<char>)
    ensures
        final(out)@ == old(out)@ + statements_text(v@, v@.len() as int),
    decreases v,
{
    let ghost base = out@;
    let mut i: usize = 0;
    assert(out@ == base + statements_text(v@, 0));
    while i < v.len()
        invariant
            i <= v.len(),
            out@ == base + statements_text(v@, i as int),
        decreases v.len() - i,
    {
        if i > 0 {
            append_str(out, ";");
        }
        write_statement(&v[i], out);
        i += 1;
        assert(out@ == base + statements_text(v@, i as int));
    }
}

impl Program {
    /// The program as source text.
    pub fn to_string(&self) -> (s: String)
        ensures
            s@ == program_text(*self),
    {
        let mut out: Vec<char> = Vec::new();
        write_statements(&self.body, &mut out);
        from_chars(&out, 0, out.len())
    }
}

impl Statement {
    pub fn to_string(&self) -> (s: String)
        ensures
            s@ == statement_text(*self),
    {
        let mut out: Vec<char> = Vec::new();
        write_statement(self, &mut out);
        from_chars(&out, 0, out.len())
    }
}

impl VariableDeclaration {
    pub fn to_string(&self) -> (s: String)
        ensures
            s@ == declaration_text(*self),
    {
        let mut out: Vec<char> = Vec::new();
        write_declaration(self, &mut out);
        from_chars(&out, 0, out.len())
    }
}

impl VariableDeclarator {
    pub fn to_string(&self) -> (s: String)
        ensures
            s@ == declarator_text(*self),
    {
        let mut out: Vec<char> = Vec::new();
        write_declarator(self, &mut out);
        from_chars(&out, 0, out.len())
    }
}

impl Pattern {
    pub fn to_string(&self) -> (s: String)
        ensures
            s@ == pattern_text(*self),
    {
        let mut out: Vec<char> = Vec::new();
        write_pattern(self, &mut out);
        from_chars(&out, 0, out.len())
    }
}

impl Expression {
    pub fn to_string(&self) -> (s: String)
        ensures
            s@ == expression_text(*self),
    {
        let mut out: Vec<char> = Vec::new();
        write_expression(self, &mut out);
        from_chars(&out, 0, out.len())
    }
}

impl Property {
    pub fn to_string(&self) -> (s: String)
        ensures
            s@ == property_text(*self),
    {
        let mut out: Vec<char> = Vec::new();
        write_property(self, &mut out);
        from_chars(&out, 0, out.len())
    }
}

} // verus!
