use rpack::javascript::ast::{
    ArrowFunctionBody, AssignmentLeft, AssignmentOperator, BinaryOperator, CatchClause, Directive,
    Expression, ForInLeft, ForInit, Function, FunctionBodyStatement, FunctionDeclaration,
    ImportBinding, ImportSpecifier, Literal, NullLiteral, NumberLiteral, Pattern, Program,
    Property, PropertyKey, PropertyKind, RegexLiteral, SourceType, Statement, SwitchCase,
    TemplateElement, UnaryOperator, UpdateOperator, VariableDeclaration, VariableDeclarationKind,
    VariableDeclarator,
};

fn id(name: &str) -> Expression {
    Expression::Id { id: name.to_string() }
}

fn decimal(digits: &str, fraction: usize, exponent_negative: bool, exponent: &str) -> NumberLiteral {
    NumberLiteral {
        radix: 10,
        digits: digits.to_string(),
        fraction,
        exponent_negative,
        exponent: exponent.to_string(),
    }
}

fn number(value: u64) -> Expression {
    Expression::Literal { literal: Literal::NumberLiteral(decimal(&value.to_string(), 0, false, "")) }
}

fn string(value: &str) -> Expression {
    Expression::Literal { literal: Literal::StringLiteral(value.to_string()) }
}

fn binary(operator: BinaryOperator, left: Expression, right: Expression) -> Expression {
    Expression::Binary { operator, left: Box::new(left), right: Box::new(right) }
}

fn call(callee: Expression, arguments: Vec<Expression>) -> Expression {
    Expression::Call { callee: Box::new(callee), arguments }
}

fn expression(expression: Expression) -> Statement {
    Statement::Expression { expression }
}

fn var(name: &str, init: Option<Expression>) -> VariableDeclaration {
    VariableDeclaration {
        kind: VariableDeclarationKind::Var,
        declarations: vec![VariableDeclarator { id: Pattern::Id { id: name.to_string() }, init }],
    }
}

fn function(name: Option<&str>, params: Vec<&str>, body: Vec<Statement>) -> Function {
    Function {
        id: name.map(|n| n.to_string()),
        params: params.into_iter().map(|p| Pattern::Id { id: p.to_string() }).collect(),
        body: body.into_iter().map(FunctionBodyStatement::Statement).collect(),
        generator: false,
    }
}

#[test]
fn literals_are_printed() {
    assert_eq!(NullLiteral.to_string(), "null");
    assert_eq!(Literal::NullLiteral(NullLiteral).to_string(), "null");
    assert_eq!(Literal::BooleanLiteral(true).to_string(), "true");
    assert_eq!(Literal::BooleanLiteral(false).to_string(), "false");
    assert_eq!(Literal::StringLiteral("a".to_string()).to_string(), "'a'");
    assert_eq!(decimal("0", 0, false, "").to_string(), "0");
    assert_eq!(decimal("3735928559", 0, false, "").to_string(), "3735928559");
    assert_eq!(decimal("01", 1, false, "").to_string(), "0.1");
    assert_eq!(decimal("5", 1, true, "3").to_string(), ".5e-3");
    assert_eq!(decimal("12", 0, false, "3").to_string(), "12e3");
    assert_eq!(decimal("12", 5, false, "").to_string(), ".12");
    let hex = NumberLiteral {
        radix: 16,
        digits: "DEADBEEFDEADBEEFDEADBEEF".to_string(),
        fraction: 0,
        exponent_negative: false,
        exponent: String::new(),
    };
    assert_eq!(hex.to_string(), "0xDEADBEEFDEADBEEFDEADBEEF");
    assert_eq!(NumberLiteral { radix: 2, ..hex.clone() }.to_string(), "0bDEADBEEFDEADBEEFDEADBEEF");
    assert_eq!(NumberLiteral { radix: 8, digits: "17".to_string(), ..hex }.to_string(), "0o17");
    let regex = RegexLiteral { pattern: "a[/]".to_string(), flags: "gi".to_string() };
    assert_eq!(regex.to_string(), "/a[/]/gi");
    assert_eq!(Literal::RegexLiteral(regex).to_string(), "/a[/]/gi");
}

#[test]
fn strings_are_escaped() {
    let text = "it's a \\ and\na\rb\u{2028}c\u{2029}d \"e\"";
    assert_eq!(
        Literal::StringLiteral(text.to_string()).to_string(),
        "'it\\'s a \\\\ and\\na\\rb\\u2028c\\u2029d \"e\"'"
    );
}

#[test]
fn operators_are_spaced() {
    assert_eq!(binary(BinaryOperator::Plus, id("a"), id("b")).to_string(), "a + b");
    assert_eq!(binary(BinaryOperator::In, id("a"), id("b")).to_string(), "a in b");
    assert_eq!(binary(BinaryOperator::InstanceOf, id("a"), id("b")).to_string(), "a instanceof b");
    assert_eq!(binary(BinaryOperator::UnsignedShr, id("a"), id("b")).to_string(), "a >>> b");
    assert_eq!(binary(BinaryOperator::NotEqEq, id("a"), id("b")).to_string(), "a !== b");
    // a - -b and a + ++b do not run together
    let negative = Expression::Unary {
        operator: UnaryOperator::Minus,
        prefix: true,
        argument: Box::new(id("b")),
    };
    assert_eq!(binary(BinaryOperator::Minus, id("a"), negative).to_string(), "a - -b");
    let increment = Expression::Update {
        operator: UpdateOperator::Increment,
        argument: Box::new(id("b")),
        prefix: true,
    };
    assert_eq!(binary(BinaryOperator::Plus, id("a"), increment).to_string(), "a + ++b");
    let postfix = Expression::Update {
        operator: UpdateOperator::Decrement,
        argument: Box::new(id("b")),
        prefix: false,
    };
    assert_eq!(postfix.to_string(), "b--");
}

#[test]
fn parentheses_keep_the_tree() {
    let sum = binary(BinaryOperator::Plus, id("a"), id("b"));
    let product = binary(BinaryOperator::Multiply, sum, id("c"));
    assert_eq!(product.to_string(), "(a + b) * c");
    let right = binary(
        BinaryOperator::Minus,
        id("a"),
        binary(BinaryOperator::Minus, id("b"), id("c")),
    );
    assert_eq!(right.to_string(), "a - (b - c)");
    let left = binary(
        BinaryOperator::Minus,
        binary(BinaryOperator::Minus, id("a"), id("b")),
        id("c"),
    );
    assert_eq!(left.to_string(), "a - b - c");
    // a sequence as an argument of a call
    let sequence = Expression::Sequence { expressions: vec![id("a"), id("b")] };
    assert_eq!(call(id("f"), vec![sequence, id("c")]).to_string(), "f((a,b),c)");
    let double = Expression::Unary {
        operator: UnaryOperator::Minus,
        prefix: true,
        argument: Box::new(Expression::Unary {
            operator: UnaryOperator::Minus,
            prefix: true,
            argument: Box::new(id("a")),
        }),
    };
    assert_eq!(double.to_string(), "-(-a)");
    let member = Expression::Member {
        object: Box::new(number(1)),
        property: Box::new(id("x")),
        computed: false,
    };
    assert_eq!(member.to_string(), "(1).x");
    let made = Expression::New { callee: Box::new(call(id("f"), vec![])), arguments: vec![] };
    assert_eq!(made.to_string(), "new (f())()");
}

#[test]
fn expressions_of_every_kind_are_printed() {
    assert_eq!(Expression::This.to_string(), "this");
    assert_eq!(Expression::Super.to_string(), "super");
    assert_eq!(Expression::Array { elements: vec![number(1), id("a")] }.to_string(), "[1,a]");
    let spread = Expression::Spread { expression: Box::new(id("rest")) };
    assert_eq!(call(id("f"), vec![id("a"), spread]).to_string(), "f(a,...rest)");
    let computed = Expression::Member {
        object: Box::new(id("a")),
        property: Box::new(string("b")),
        computed: true,
    };
    assert_eq!(computed.to_string(), "a['b']");
    let conditional = Expression::Conditional {
        test: Box::new(id("t")),
        alternate: Box::new(id("no")),
        consequent: Box::new(id("yes")),
    };
    assert_eq!(conditional.to_string(), "t ? yes : no");
    let assignment = Expression::Assignment {
        operator: AssignmentOperator::PlusEq,
        left: Box::new(AssignmentLeft::Expression(id("a"))),
        right: Box::new(number(1)),
    };
    assert_eq!(assignment.to_string(), "a += 1");
    let destructuring = Expression::Assignment {
        operator: AssignmentOperator::Eq,
        left: Box::new(AssignmentLeft::Pattern(Pattern::Array {
            elements: vec![Pattern::Id { id: "a".to_string() }, Pattern::Rest],
        })),
        right: Box::new(id("b")),
    };
    assert_eq!(destructuring.to_string(), "[a,...] = b");
    let typeof_a = Expression::Unary {
        operator: UnaryOperator::Typeof,
        prefix: true,
        argument: Box::new(id("a")),
    };
    assert_eq!(typeof_a.to_string(), "typeof a");
    let arrow = Expression::ArrowFunction {
        body: Box::new(ArrowFunctionBody::Expression(Expression::Object { properties: vec![] })),
        expression: true,
    };
    assert_eq!(arrow.to_string(), "()=>({})");
    let arrow_block = Expression::ArrowFunction {
        body: Box::new(ArrowFunctionBody::FunctionBody(vec![FunctionBodyStatement::Statement(
            Statement::Return { argument: Some(number(1)) },
        )])),
        expression: false,
    };
    assert_eq!(arrow_block.to_string(), "()=>{return 1}");
    assert_eq!(Expression::Yield { argument: None, delegate: false }.to_string(), "yield");
    assert_eq!(
        Expression::Yield { argument: Some(Box::new(id("a"))), delegate: true }.to_string(),
        "yield* a"
    );
    let template = Expression::TemplateLiteral {
        quasis: vec![
            TemplateElement { cooked: "a\n".to_string(), raw: "a\\n".to_string() },
            TemplateElement { cooked: "b".to_string(), raw: "b".to_string() },
        ],
        expressions: vec![id("x")],
    };
    assert_eq!(template.to_string(), "`a\\n${x}b`");
    let tagged = Expression::TaggedTemplate {
        tag: Box::new(id("tag")),
        quasi: Box::new(Expression::TemplateLiteral {
            quasis: vec![TemplateElement { cooked: "a".to_string(), raw: "a".to_string() }],
            expressions: vec![],
        }),
    };
    assert_eq!(tagged.to_string(), "tag`a`");
    let named = Expression::Function {
        function: Function {
            id: Some("f".to_string()),
            params: vec![Pattern::Id { id: "a".to_string() }],
            body: vec![FunctionBodyStatement::Directive(Directive {
                expression: Literal::StringLiteral("use strict".to_string()),
                directive: "use strict".to_string(),
            })],
            generator: true,
        },
    };
    assert_eq!(named.to_string(), "function* f(a){'use strict'}");
}

#[test]
fn properties_are_printed() {
    let init = Property {
        key: PropertyKey::Id("a".to_string()),
        value: number(1),
        kind: PropertyKind::Init,
    };
    assert_eq!(init.to_string(), "a:1");
    let getter = Property {
        key: PropertyKey::Id("a".to_string()),
        value: Expression::Function { function: function(None, vec![], vec![]) },
        kind: PropertyKind::Get,
    };
    assert_eq!(getter.to_string(), "get a(){}");
    let setter = Property {
        key: PropertyKey::Literal(Literal::StringLiteral("a b".to_string())),
        value: Expression::Function { function: function(None, vec!["v"], vec![]) },
        kind: PropertyKind::Setter,
    };
    assert_eq!(setter.to_string(), "set 'a b'(v){}");
    let computed = Property {
        key: PropertyKey::Expression(id("k")),
        value: id("v"),
        kind: PropertyKind::Init,
    };
    assert_eq!(
        Expression::Object { properties: vec![init, computed] }.to_string(),
        "{a:1,[k]:v}"
    );
    assert_eq!(PropertyKind::Init.to_string(), "");
    assert_eq!(PropertyKind::Get.to_string(), "get ");
    assert_eq!(PropertyKind::Setter.to_string(), "set ");
}

#[test]
fn patterns_and_declarations_are_printed() {
    assert_eq!(Pattern::Id { id: "a".to_string() }.to_string(), "a");
    let object = Pattern::Object {
        properties: vec![
            Pattern::Id { id: "a".to_string() },
            Pattern::Assignment {
                left: Box::new(Pattern::Id { id: "b".to_string() }),
                right: number(2),
            },
        ],
    };
    assert_eq!(object.to_string(), "{a,b = 2}");
    assert_eq!(VariableDeclarationKind::Var.to_string(), "var");
    assert_eq!(VariableDeclarationKind::Let.to_string(), "let");
    assert_eq!(VariableDeclarationKind::Const.to_string(), "const");
    let declarator = VariableDeclarator { id: Pattern::Id { id: "a".to_string() }, init: Some(number(1)) };
    assert_eq!(declarator.to_string(), "a = 1");
    let declaration = VariableDeclaration {
        kind: VariableDeclarationKind::Const,
        declarations: vec![
            declarator,
            VariableDeclarator { id: Pattern::Id { id: "b".to_string() }, init: None },
        ],
    };
    assert_eq!(declaration.to_string(), "const a = 1,b");
}

#[test]
fn statements_of_every_kind_are_printed() {
    let x = || expression(call(id("x"), vec![]));
    assert_eq!(Statement::Empty.to_string(), ";");
    assert_eq!(Statement::Debugger.to_string(), "debugger");
    assert_eq!(Statement::Block { body: vec![x(), x()] }.to_string(), "{x();x()}");
    assert_eq!(
        Statement::With { object: id("o"), body: Box::new(x()) }.to_string(),
        "with(o)x()"
    );
    assert_eq!(Statement::Return { argument: None }.to_string(), "return");
    assert_eq!(Statement::Return { argument: Some(id("a")) }.to_string(), "return a");
    assert_eq!(
        Statement::Label { label: "out".to_string(), body: Box::new(x()) }.to_string(),
        "out:x()"
    );
    assert_eq!(Statement::Break { label: None }.to_string(), "break");
    assert_eq!(Statement::Break { label: Some("out".to_string()) }.to_string(), "break out");
    assert_eq!(Statement::Continue { label: None }.to_string(), "continue");
    assert_eq!(Statement::Continue { label: Some("out".to_string()) }.to_string(), "continue out");
    assert_eq!(
        Statement::If { test: id("t"), consequent: Box::new(x()), alternate: None }.to_string(),
        "if(t)x()"
    );
    assert_eq!(
        Statement::If { test: id("t"), consequent: Box::new(x()), alternate: Some(Box::new(x())) }
            .to_string(),
        "if(t){x()}else x()"
    );
    assert_eq!(
        Statement::If {
            test: id("t"),
            consequent: Box::new(Statement::Empty),
            alternate: Some(Box::new(Statement::Block { body: vec![] })),
        }
        .to_string(),
        "if(t){;}else {}"
    );
    let cases = vec![
        SwitchCase { test: Some(number(1)), consequent: vec![x(), Statement::Break { label: None }] },
        SwitchCase { test: None, consequent: vec![] },
    ];
    assert_eq!(
        Statement::Switch { discriminant: id("d"), cases }.to_string(),
        "switch(d){case 1:x();break;default:}"
    );
    assert_eq!(Statement::Throw { argument: id("e") }.to_string(), "throw e");
    assert_eq!(
        Statement::Try {
            block: vec![x()],
            handler: Some(CatchClause { param: Pattern::Id { id: "e".to_string() }, body: vec![] }),
            finalizer: Some(vec![x()]),
        }
        .to_string(),
        "try{x()}catch(e){}finally{x()}"
    );
    assert_eq!(
        Statement::Try { block: vec![], handler: None, finalizer: Some(vec![]) }.to_string(),
        "try{}finally{}"
    );
    assert_eq!(Statement::While { test: id("t"), body: Box::new(x()) }.to_string(), "while(t)x()");
    assert_eq!(
        Statement::DoWhile { body: Box::new(x()), test: id("t") }.to_string(),
        "do{x()}while(t)"
    );
    assert_eq!(
        Statement::For {
            init: Some(ForInit::VariableDeclaration(var("i", Some(number(0))))),
            test: Some(binary(BinaryOperator::Lt, id("i"), id("n"))),
            update: Some(Expression::Update {
                operator: UpdateOperator::Increment,
                argument: Box::new(id("i")),
                prefix: false,
            }),
            body: Box::new(x()),
        }
        .to_string(),
        "for(var i = 0;i < n;i++)x()"
    );
    assert_eq!(
        Statement::For { init: None, test: None, update: None, body: Box::new(Statement::Empty) }
            .to_string(),
        "for(;;);"
    );
    assert_eq!(
        Statement::For {
            init: Some(ForInit::Expression(id("a"))),
            test: None,
            update: None,
            body: Box::new(Statement::Empty),
        }
        .to_string(),
        "for(a;;);"
    );
    assert_eq!(
        Statement::ForInOf {
            left: ForInLeft::VariableDeclaration(var("k", None)),
            right: id("o"),
            body: Box::new(x()),
        }
        .to_string(),
        "for(var k in o)x()"
    );
    assert_eq!(
        Statement::ForInOf {
            left: ForInLeft::Pattern(Pattern::Id { id: "k".to_string() }),
            right: id("o"),
            body: Box::new(x()),
        }
        .to_string(),
        "for(k in o)x()"
    );
    assert_eq!(
        Statement::FunctionDeclaration {
            declaration: FunctionDeclaration {
                id: "f".to_string(),
                function: function(Some("f"), vec!["a", "b"], vec![x()]),
            },
        }
        .to_string(),
        "function f(a,b){x()}"
    );
    assert_eq!(
        Statement::VariableDeclaration { declaration: var("a", None) }.to_string(),
        "var a"
    );
}

#[test]
fn imports_are_printed() {
    let source = "./a.js".to_string();
    assert_eq!(
        Statement::Import(ImportSpecifier::ImportDefault("a".to_string()), source.clone())
            .to_string(),
        "import a from './a.js'"
    );
    assert_eq!(
        Statement::Import(ImportSpecifier::ImportNamespaced("a".to_string()), source.clone())
            .to_string(),
        "import * as a from './a.js'"
    );
    let named = ImportSpecifier::Import(vec![
        ImportBinding { imported: "a".to_string(), local: "a".to_string() },
        ImportBinding { imported: "b".to_string(), local: "c".to_string() },
    ]);
    assert_eq!(Statement::Import(named, source).to_string(), "import {a,b as c} from './a.js'");
}

#[test]
fn expression_statements_that_could_be_misread_are_wrapped() {
    let object = Expression::Object { properties: vec![] };
    assert_eq!(expression(object).to_string(), "({})");
    let immediately = call(Expression::Function { function: function(None, vec![], vec![]) }, vec![]);
    assert_eq!(expression(immediately).to_string(), "(function(){}())");
    assert_eq!(expression(call(id("f"), vec![number(1)])).to_string(), "f(1)");
    assert_eq!(expression(id("a")).to_string(), "a");
}

#[test]
fn programs_join_statements_with_semicolons() {
    let program = Program {
        source_type: SourceType::Script,
        body: vec![
            Statement::VariableDeclaration { declaration: var("a", Some(string("x"))) },
            expression(call(id("f"), vec![id("a")])),
        ],
    };
    assert_eq!(program.to_string(), "var a = 'x';f(a)");
    assert_eq!(Program { source_type: SourceType::Module, body: vec![] }.to_string(), "");
}
