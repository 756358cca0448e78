//! What the printer writes, as a function of the tree.
//!
//! Lists are joined by their separator; an operand is put in parentheses
//! where its own operator binds less tightly than the place it stands in.

use vstd::prelude::*;
use crate::javascript::ast::{
    ArrowFunctionBody, AssignmentLeft, AssignmentOperator, BinaryOperator, CatchClause,
    Expression, ForInLeft, ForInit, Function, FunctionBodyStatement, FunctionDeclaration,
    ImportBinding, ImportSpecifier, Literal, Pattern, Program, Property, PropertyKey,
    PropertyKind, Statement, SwitchCase, TemplateElement, UnaryOperator, UpdateOperator,
    VariableDeclaration, VariableDeclarationKind, VariableDeclarator,
};
use crate::javascript::display::literal_text;

verus! {

pub open spec fn kind_text(k: VariableDeclarationKind) -> Seq<char> {
    match k {
        VariableDeclarationKind::Var => "var"@,
        VariableDeclarationKind::Let => "let"@,
        VariableDeclarationKind::Const => "const"@,
    }
}

pub open spec fn unary_operator_text(op: UnaryOperator) -> Seq<char> {
    match op {
        UnaryOperator::Minus => "-"@,
        UnaryOperator::Plus => "+"@,
        UnaryOperator::Not => "!"@,
        UnaryOperator::BitwiseNot => "~"@,
        UnaryOperator::Typeof => "typeof "@,
        UnaryOperator::Void => "void "@,
        UnaryOperator::Delete => "delete "@,
    }
}

pub open spec fn update_operator_text(op: UpdateOperator) -> Seq<char> {
    match op {
        UpdateOperator::Increment => "++"@,
        UpdateOperator::Decrement => "--"@,
    }
}

/// A binary operator with a space on either side.
pub open spec fn binary_operator_text(op: BinaryOperator) -> Seq<char> {
    match op {
        BinaryOperator::EqEq => " == "@,
        BinaryOperator::NotEq => " != "@,
        BinaryOperator::EqEqEq => " === "@,
        BinaryOperator::NotEqEq => " !== "@,
        BinaryOperator::Lt => " < "@,
        BinaryOperator::Lte => " <= "@,
        BinaryOperator::Gt => " > "@,
        BinaryOperator::Gte => " >= "@,
        BinaryOperator::Shl => " << "@,
        BinaryOperator::Shr => " >> "@,
        BinaryOperator::UnsignedShr => " >>> "@,
        BinaryOperator::Plus => " + "@,
        BinaryOperator::Minus => " - "@,
        BinaryOperator::Multiply => " * "@,
        BinaryOperator::Divide => " / "@,
        BinaryOperator::Mod => " % "@,
        BinaryOperator::BitwiseOr => " | "@,
        BinaryOperator::Or => " || "@,
        BinaryOperator::BitwiseXor => " ^ "@,
        BinaryOperator::BitwiseAnd => " & "@,
        BinaryOperator::And => " && "@,
        BinaryOperator::In => " in "@,
        BinaryOperator::InstanceOf => " instanceof "@,
    }
}

/// An assignment operator with a space on either side.
pub open spec fn assignment_operator_text(op: AssignmentOperator) -> Seq<char> {
    match op {
        AssignmentOperator::Eq => " = "@,
        AssignmentOperator::PlusEq => " += "@,
        AssignmentOperator::MinusEq => " -= "@,
        AssignmentOperator::MultiplyEq => " *= "@,
        AssignmentOperator::DivideEq => " /= "@,
        AssignmentOperator::ModEq => " %= "@,
        AssignmentOperator::ShlEq => " <<= "@,
        AssignmentOperator::ShrEq => " >>= "@,
        AssignmentOperator::UnsignedShrEq => " >>>= "@,
        AssignmentOperator::BitwiseOrEq => " |= "@,
        AssignmentOperator::BitwiseXorEq => " ^= "@,
        AssignmentOperator::BitwiseAndEq => " &= "@,
    }
}

/// How tightly a binary operator binds; a larger number binds tighter.
pub open spec fn binary_precedence(op: BinaryOperator) -> int {
    match op {
        BinaryOperator::Or => 4,
        BinaryOperator::And => 5,
        BinaryOperator::BitwiseOr => 6,
        BinaryOperator::BitwiseXor => 7,
        BinaryOperator::BitwiseAnd => 8,
        BinaryOperator::EqEq | BinaryOperator::NotEq | BinaryOperator::EqEqEq
        | BinaryOperator::NotEqEq => 9,
        BinaryOperator::Lt | BinaryOperator::Lte | BinaryOperator::Gt | BinaryOperator::Gte
        | BinaryOperator::In | BinaryOperator::InstanceOf => 10,
        BinaryOperator::Shl | BinaryOperator::Shr | BinaryOperator::UnsignedShr => 11,
        BinaryOperator::Plus | BinaryOperator::Minus => 12,
        BinaryOperator::Multiply | BinaryOperator::Divide | BinaryOperator::Mod => 13,
    }
}

/// How tightly an expression holds together as an operand.
///
/// A number stands below member access, so that a property of a number is
/// never written as digits followed by a dot.
pub open spec fn precedence(e: Expression) -> int {
    match e {
        Expression::Sequence { .. } => 1,
        Expression::Assignment { .. } | Expression::ArrowFunction { .. } | Expression::Yield { .. }
        | Expression::Spread { .. } => 2,
        Expression::Conditional { .. } => 3,
        Expression::Binary { operator, .. } => binary_precedence(operator),
        Expression::Unary { .. } | Expression::Update { .. } => 14,
        Expression::Literal { literal: Literal::NumberLiteral(_) } => 15,
        Expression::Call { .. } | Expression::New { .. } | Expression::TaggedTemplate { .. } => 16,
        Expression::Member { .. } => 17,
        _ => 18,
    }
}

/// Whether an expression can open a statement as it is written: one that
/// might begin with a brace or with `function` cannot.
pub open spec fn stands_alone(e: Expression) -> bool {
    match e {
        Expression::Id { .. } | Expression::Literal { .. } | Expression::This
        | Expression::Array { .. } | Expression::New { .. } | Expression::Unary { .. }
        | Expression::TemplateLiteral { .. } => true,
        Expression::Call { callee, .. } => *callee is Id,
        _ => false,
    }
}

pub open spec fn template_element_text(t: TemplateElement) -> Seq<char> {
    t.raw@
}

pub open spec fn import_binding_text(b: ImportBinding) -> Seq<char> {
    if b.imported@ == b.local@ {
        b.local@
    } else {
        b.imported@ + " as "@ + b.local@
    }
}

/// The first `n` bindings, joined by commas.
pub open spec fn import_bindings_text(v: Seq<ImportBinding>, n: int) -> Seq<char>
    decreases n,
{
    if n <= 0 || n > v.len() {
        Seq::empty()
    } else if n == 1 {
        import_binding_text(v[0])
    } else {
        import_bindings_text(v, n - 1) + ","@ + import_binding_text(v[n - 1])
    }
}

pub open spec fn import_text(specifier: ImportSpecifier, source: Seq<char>) -> Seq<char> {
    match specifier {
        ImportSpecifier::Import(bindings) => "import {"@ + import_bindings_text(
            bindings@,
            bindings@.len() as int,
        ) + "} from "@ + crate::javascript::display::string_text(source),
        ImportSpecifier::ImportDefault(id) => "import "@ + id@ + " from "@
            + crate::javascript::display::string_text(source),
        ImportSpecifier::ImportNamespaced(id) => "import * as "@ + id@ + " from "@
            + crate::javascript::display::string_text(source),
    }
}

pub open spec fn expression_text(e: Expression) -> Seq<char>
    decreases e, 0int,
{
    match e {
        Expression::Id { id } => id@,
        Expression::Literal { literal } => literal_text(literal),
        Expression::This => "this"@,
        Expression::Super => "super"@,
        Expression::Array { elements } => "["@ + expressions_text(
            elements@,
            elements@.len() as int,
        ) + "]"@,
        Expression::Object { properties } => "{"@ + properties_text(
            properties@,
            properties@.len() as int,
        ) + "}"@,
        Expression::Function { function } => "function"@ + (if function.generator {
            "*"@
        } else {
            Seq::<char>::empty()
        }) + (match function.id {
            Some(id) => " "@ + id@,
            None => Seq::<char>::empty(),
        }) + function_text(function),
        Expression::Unary { operator, prefix, argument } => unary_operator_text(operator)
            + wrapped_text(*argument, 15),
        Expression::Update { operator, argument, prefix } => if prefix {
            update_operator_text(operator) + wrapped_text(*argument, 15)
        } else {
            wrapped_text(*argument, 15) + update_operator_text(operator)
        },
        Expression::Binary { operator, left, right } => wrapped_text(
            *left,
            binary_precedence(operator),
        ) + binary_operator_text(operator) + wrapped_text(*right, binary_precedence(operator) + 1),
        Expression::Assignment { operator, left, right } => assignment_left_text(*left)
            + assignment_operator_text(operator) + wrapped_text(*right, 2),
        Expression::Member { object, property, computed } => if !computed && *property is Id {
            wrapped_text(*object, 16) + "."@ + expression_text(*property)
        } else {
            wrapped_text(*object, 16) + "["@ + expression_text(*property) + "]"@
        },
        Expression::Conditional { test, alternate, consequent } => wrapped_text(*test, 4) + " ? "@
            + wrapped_text(*consequent, 2) + " : "@ + wrapped_text(*alternate, 2),
        Expression::Call { callee, arguments } => wrapped_text(*callee, 16) + "("@
            + expressions_text(arguments@, arguments@.len() as int) + ")"@,
        Expression::New { callee, arguments } => "new "@ + wrapped_text(*callee, 18) + "("@
            + expressions_text(arguments@, arguments@.len() as int) + ")"@,
        Expression::Sequence { expressions } => expressions_text(
            expressions@,
            expressions@.len() as int,
        ),
        Expression::Spread { expression } => "..."@ + wrapped_text(*expression, 2),
        Expression::ArrowFunction { body, expression } => "()=>"@ + arrow_body_text(*body),
        Expression::Yield { argument, delegate } => (if delegate {
            "yield*"@
        } else {
            "yield"@
        }) + (match argument {
            Some(a) => " "@ + wrapped_text(*a, 2),
            None => Seq::<char>::empty(),
        }),
        Expression::TemplateLiteral { quasis, expressions } => "`"@ + template_text(
            quasis@,
            expressions@,
            quasis@.len() as int,
        ) + "`"@,
        Expression::TaggedTemplate { tag, quasi } => wrapped_text(*tag, 16) + expression_text(
            *quasi,
        ),
    }
}

/// An expression as an operand of something that binds with strength `min`.
pub open spec fn wrapped_text(e: Expression, min: int) -> Seq<char>
    decreases e, 1int,
{
    if precedence(e) < min {
        "("@ + expression_text(e) + ")"@
    } else {
        expression_text(e)
    }
}

/// The first `n` expressions, each as an operand of a comma, joined by commas.
pub open spec fn expressions_text(v: Seq<Expression>, n: int) -> Seq<char>
    decreases v, n,
{
    if n <= 0 || n > v.len() {
        Seq::empty()
    } else if n == 1 {
        wrapped_text(v[0], 2)
    } else {
        expressions_text(v, n - 1) + ","@ + wrapped_text(v[n - 1], 2)
    }
}

/// The first `n` stretches of a template, with the expressions between them.
pub open spec fn template_text(quasis: Seq<TemplateElement>, expressions: Seq<Expression>, n: int)
    -> Seq<char>
    decreases expressions, n,
{
    if n <= 0 || n > quasis.len() {
        Seq::empty()
    } else if n == 1 {
        template_element_text(quasis[0])
    } else if n - 2 < expressions.len() {
        template_text(quasis, expressions, n - 1) + "${"@ + expression_text(expressions[n - 2])
            + "}"@ + template_element_text(quasis[n - 1])
    } else {
        template_text(quasis, expressions, n - 1) + template_element_text(quasis[n - 1])
    }
}

pub open spec fn assignment_left_text(l: AssignmentLeft) -> Seq<char>
    decreases l,
{
    match l {
        AssignmentLeft::Pattern(p) => pattern_text(p),
        AssignmentLeft::Expression(e) => wrapped_text(e, 16),
    }
}

pub open spec fn arrow_body_text(b: ArrowFunctionBody) -> Seq<char>
    decreases b,
{
    match b {
        ArrowFunctionBody::FunctionBody(body) => "{"@ + function_body_text(
            body@,
            body@.len() as int,
        ) + "}"@,
        ArrowFunctionBody::Expression(e) => if e is Object {
            "("@ + expression_text(e) + ")"@
        } else {
            wrapped_text(e, 2)
        },
    }
}

pub open spec fn property_key_text(k: PropertyKey) -> Seq<char>
    decreases k,
{
    match k {
        PropertyKey::Literal(l) => literal_text(l),
        PropertyKey::Id(id) => id@,
        PropertyKey::Expression(e) => "["@ + wrapped_text(e, 2) + "]"@,
    }
}

/// A property: a getter or setter where it is one and its value is a
/// function, else the key, a colon and the value.
pub open spec fn property_text(p: Property) -> Seq<char>
    decreases p,
{
    match (p.kind, p.value) {
        (PropertyKind::Get, Expression::Function { function }) => "get "@ + property_key_text(
            p.key,
        ) + function_text(function),
        (PropertyKind::Setter, Expression::Function { function }) => "set "@ + property_key_text(
            p.key,
        ) + function_text(function),
        _ => property_key_text(p.key) + ":"@ + wrapped_text(p.value, 2),
    }
}

/// The first `n` properties, joined by commas.
pub open spec fn properties_text(v: Seq<Property>, n: int) -> Seq<char>
    decreases v, n,
{
    if n <= 0 || n > v.len() {
        Seq::empty()
    } else if n == 1 {
        property_text(v[0])
    } else {
        properties_text(v, n - 1) + ","@ + property_text(v[n - 1])
    }
}

pub open spec fn pattern_text(p: Pattern) -> Seq<char>
    decreases p,
{
    match p {
        Pattern::Id { id } => id@,
        Pattern::Object { properties } => "{"@ + patterns_text(
            properties@,
            properties@.len() as int,
        ) + "}"@,
        Pattern::Array { elements } => "["@ + patterns_text(elements@, elements@.len() as int)
            + "]"@,
        Pattern::Rest => "..."@,
        Pattern::Assignment { left, right } => pattern_text(*left) + " = "@ + wrapped_text(
            right,
            2,
        ),
    }
}

/// The first `n` patterns, joined by commas.
pub open spec fn patterns_text(v: Seq<Pattern>, n: int) -> Seq<char>
    decreases v, n,
{
    if n <= 0 || n > v.len() {
        Seq::empty()
    } else if n == 1 {
        pattern_text(v[0])
    } else {
        patterns_text(v, n - 1) + ","@ + pattern_text(v[n - 1])
    }
}

/// The parameters of a function in parentheses and its body in braces.
pub open spec fn function_text(f: Function) -> Seq<char>
    decreases f,
{
    "("@ + patterns_text(f.params@, f.params@.len() as int) + "){"@ + function_body_text(
        f.body@,
        f.body@.len() as int,
    ) + "}"@
}

pub open spec fn function_body_statement_text(s: FunctionBodyStatement) -> Seq<char>
    decreases s,
{
    match s {
        FunctionBodyStatement::Statement(s) => statement_text(s),
        FunctionBodyStatement::Directive(d) => literal_text(d.expression),
    }
}

/// The first `n` statements of a function body, joined by semicolons.
pub open spec fn function_body_text(v: Seq<FunctionBodyStatement>, n: int) -> Seq<char>
    decreases v, n,
{
    if n <= 0 || n > v.len() {
        Seq::empty()
    } else if n == 1 {
        function_body_statement_text(v[0])
    } else {
        function_body_text(v, n - 1) + ";"@ + function_body_statement_text(v[n - 1])
    }
}

pub open spec fn declarator_text(d: VariableDeclarator) -> Seq<char>
    decreases d,
{
    match d.init {
        Some(e) => pattern_text(d.id) + " = "@ + wrapped_text(e, 2),
        None => pattern_text(d.id),
    }
}

/// The first `n` declarators, joined by commas.
pub open spec fn declarators_text(v: Seq<VariableDeclarator>, n: int) -> Seq<char>
    decreases v, n,
{
    if n <= 0 || n > v.len() {
        Seq::empty()
    } else if n == 1 {
        declarator_text(v[0])
    } else {
        declarators_text(v, n - 1) + ","@ + declarator_text(v[n - 1])
    }
}

pub open spec fn declaration_text(d: VariableDeclaration) -> Seq<char>
    decreases d,
{
    kind_text(d.kind) + " "@ + declarators_text(d.declarations@, d.declarations@.len() as int)
}

pub open spec fn function_declaration_text(d: FunctionDeclaration) -> Seq<char>
    decreases d,
{
    (if d.function.generator {
        "function* "@
    } else {
        "function "@
    }) + d.id@ + function_text(d.function)
}

pub open spec fn for_init_text(i: ForInit) -> Seq<char>
    decreases i,
{
    match i {
        ForInit::VariableDeclaration(d) => declaration_text(d),
        ForInit::Expression(e) => expression_text(e),
    }
}

pub open spec fn for_in_left_text(l: ForInLeft) -> Seq<char>
    decreases l,
{
    match l {
        ForInLeft::VariableDeclaration(d) => declaration_text(d),
        ForInLeft::Pattern(p) => pattern_text(p),
    }
}

/// One arm of a `switch`, every statement of it closed by a semicolon.
pub open spec fn switch_case_text(c: SwitchCase) -> Seq<char>
    decreases c,
{
    (match c.test {
        Some(e) => "case "@ + expression_text(e) + ":"@,
        None => "default:"@,
    }) + (if c.consequent@.len() == 0 {
        Seq::<char>::empty()
    } else {
        statements_text(c.consequent@, c.consequent@.len() as int) + ";"@
    })
}

/// The first `n` arms, one after the other.
pub open spec fn switch_cases_text(v: Seq<SwitchCase>, n: int) -> Seq<char>
    decreases v, n,
{
    if n <= 0 || n > v.len() {
        Seq::empty()
    } else {
        switch_cases_text(v, n - 1) + switch_case_text(v[n - 1])
    }
}

pub open spec fn catch_clause_text(c: CatchClause) -> Seq<char>
    decreases c,
{
    "catch("@ + pattern_text(c.param) + "){"@ + statements_text(c.body@, c.body@.len() as int)
        + "}"@
}

pub open spec fn statement_text(s: Statement) -> Seq<char>
    decreases s, 0int,
{
    match s {
        Statement::Block { body } => "{"@ + statements_text(body@, body@.len() as int) + "}"@,
        Statement::Expression { expression } => if stands_alone(expression) {
            expression_text(expression)
        } else {
            "("@ + expression_text(expression) + ")"@
        },
        Statement::Empty => ";"@,
        Statement::Debugger => "debugger"@,
        Statement::With { object, body } => "with("@ + expression_text(object) + ")"@
            + statement_text(*body),
        Statement::Return { argument } => match argument {
            Some(e) => "return "@ + expression_text(e),
            None => "return"@,
        },
        Statement::Label { label, body } => label@ + ":"@ + statement_text(*body),
        Statement::Break { label } => match label {
            Some(l) => "break "@ + l@,
            None => "break"@,
        },
        Statement::Continue { label } => match label {
            Some(l) => "continue "@ + l@,
            None => "continue"@,
        },
        Statement::If { test, consequent, alternate } => match alternate {
            Some(a) => "if("@ + expression_text(test) + ")"@ + braced_text(*consequent) + "else "@
                + statement_text(*a),
            None => "if("@ + expression_text(test) + ")"@ + statement_text(*consequent),
        },
        Statement::Switch { discriminant, cases } => "switch("@ + expression_text(discriminant)
            + "){"@ + switch_cases_text(cases@, cases@.len() as int) + "}"@,
        Statement::Throw { argument } => "throw "@ + expression_text(argument),
        Statement::Try { block, handler, finalizer } => "try{"@ + statements_text(
            block@,
            block@.len() as int,
        ) + "}"@ + (match handler {
            Some(h) => catch_clause_text(h),
            None => Seq::<char>::empty(),
        }) + (match finalizer {
            Some(f) => "finally{"@ + statements_text(f@, f@.len() as int) + "}"@,
            None => Seq::<char>::empty(),
        }),
        Statement::While { test, body } => "while("@ + expression_text(test) + ")"@
            + statement_text(*body),
        Statement::DoWhile { body, test } => "do"@ + braced_text(*body) + "while("@
            + expression_text(test) + ")"@,
        Statement::For { init, test, update, body } => "for("@ + (match init {
            Some(i) => for_init_text(i),
            None => Seq::<char>::empty(),
        }) + ";"@ + (match test {
            Some(e) => expression_text(e),
            None => Seq::<char>::empty(),
        }) + ";"@ + (match update {
            Some(e) => expression_text(e),
            None => Seq::<char>::empty(),
        }) + ")"@ + statement_text(*body),
        Statement::ForInOf { left, right, body } => "for("@ + for_in_left_text(left) + " in "@
            + expression_text(right) + ")"@ + statement_text(*body),
        Statement::FunctionDeclaration { declaration } => function_declaration_text(declaration),
        Statement::VariableDeclaration { declaration } => declaration_text(declaration),
        Statement::Import(specifier, source) => import_text(specifier, source@),
    }
}

/// A statement in braces, unless it is a block already.
pub open spec fn braced_text(s: Statement) -> Seq<char>
    decreases s, 1int,
{
    if s is Block {
        statement_text(s)
    } else {
        "{"@ + statement_text(s) + "}"@
    }
}

/// The first `n` statements, joined by semicolons.
pub open spec fn statements_text(v: Seq<Statement>, n: int) -> Seq<char>
    decreases v, n,
{
    if n <= 0 || n > v.len() {
        Seq::empty()
    } else if n == 1 {
        statement_text(v[0])
    } else {
        statements_text(v, n - 1) + ";"@ + statement_text(v[n - 1])
    }
}

/// The text of a program: its statements, joined by semicolons.
pub open spec fn program_text(p: Program) -> Seq<char> {
    statements_text(p.body@, p.body@.len() as int)
}

} // verus!
