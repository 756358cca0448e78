//! The syntax tree of a JavaScript program: closed sets of variants for
//! statements, expressions and patterns, each node owning its children.

use vstd::prelude::*;

verus! {

/// An identifier name, escape sequences already decoded.
pub type Id = String;

/// The decoded value of a string literal.
pub type StringLiteral = String;

pub type BooleanLiteral = bool;

#[derive(Debug, Clone, Copy, PartialEq, Eq, Structural)]
pub struct NullLiteral;

/// A numeric literal, by its digits: the number is what `digits` write in
/// the base `radix`, times ten to the written exponent less `fraction`.
///
/// `digits` holds the digits of the whole part and of the fraction, as many
/// as were written; `fraction` says how many of them stood after the point;
/// `exponent` holds the digits of the exponent, or nothing. Literals written
/// in binary, octal or hexadecimal have neither fraction nor exponent.
#[derive(Debug, Clone, PartialEq, Eq)]
pub struct NumberLiteral {
    pub radix: u32,
    pub digits: String,
    pub fraction: usize,
    pub exponent_negative: bool,
    pub exponent: String,
}

#[derive(Debug, Clone, PartialEq)]
pub struct RegexLiteral {
    pub pattern: String,
    pub flags: String,
}

/// One stretch of template text: its interpreted value and the text as written.
#[derive(Debug, Clone, PartialEq)]
pub struct TemplateElement {
    pub cooked: String,
    pub raw: String,
}

#[derive(Debug, Clone, PartialEq)]
pub enum Literal {
    StringLiteral(StringLiteral),
    BooleanLiteral(BooleanLiteral),
    NullLiteral(NullLiteral),
    NumberLiteral(NumberLiteral),
    RegexLiteral(RegexLiteral),
}

#[derive(Debug, PartialEq)]
pub enum Statement {
    Block { body: BlockStatement },
    Expression { expression: Expression },
    Empty,
    Debugger,
    With { object: Expression, body: Box<Statement> },
    Return { argument: Option<Expression> },
    Label { label: Id, body: Box<Statement> },
    Break { label: Option<Id> },
    Continue { label: Option<Id> },
    If { test: Expression, consequent: Box<Statement>, alternate: Option<Box<Statement>> },
    Switch { discriminant: Expression, cases: Vec<SwitchCase> },
    Throw { argument: Expression },
    Try { block: BlockStatement, handler: Option<CatchClause>, finalizer: Option<BlockStatement> },
    While { test: Expression, body: Box<Statement> },
    DoWhile { body: Box<Statement>, test: Expression },
    For {
        init: Option<ForInit>,
        test: Option<Expression>,
        update: Option<Expression>,
        body: Box<Statement>,
    },
    /// `for (left in right)` and `for (left of right)`.
    ForInOf { left: ForInLeft, right: Expression, body: Box<Statement> },
    FunctionDeclaration { declaration: FunctionDeclaration },
    VariableDeclaration { declaration: VariableDeclaration },
    /// What is imported, and the module it is imported from.
    Import(ImportSpecifier, StringLiteral),
}

/// A place in a source text, both counted from one.
#[derive(Debug, Clone, Copy, PartialEq, Eq, Structural)]
pub struct Position {
    pub line: usize,
    pub column: usize,
}

/// A whole source text; `body` is in execution order.
#[derive(Debug, PartialEq)]
pub struct Program {
    pub source_type: SourceType,
    pub body: Vec<Statement>,
}

#[derive(Debug, Clone, Copy, PartialEq, Eq, Structural)]
pub enum SourceType {
    Script,
    Module,
}

#[derive(Debug, PartialEq)]
pub struct Function {
    pub id: Option<Id>,
    pub params: Vec<Pattern>,
    pub body: FunctionBody,
    pub generator: bool,
}

#[derive(Debug, Clone, PartialEq)]
pub struct Directive {
    pub expression: Literal,
    pub directive: String,
}

pub type BlockStatement = Vec<Statement>;

#[derive(Debug, PartialEq)]
pub enum FunctionBodyStatement {
    Statement(Statement),
    Directive(Directive),
}

pub type FunctionBody = Vec<FunctionBodyStatement>;

/// One arm of a `switch`; the `default` arm has no test.
#[derive(Debug, PartialEq)]
pub struct SwitchCase {
    pub test: Option<Expression>,
    pub consequent: Vec<Statement>,
}

#[derive(Debug, PartialEq)]
pub struct CatchClause {
    pub param: Pattern,
    pub body: Vec<Statement>,
}

#[derive(Debug, PartialEq)]
pub enum ForInit {
    VariableDeclaration(VariableDeclaration),
    Expression(Expression),
}

#[derive(Debug, PartialEq)]
pub enum ForInLeft {
    VariableDeclaration(VariableDeclaration),
    Pattern(Pattern),
}

/// One name of a named import: `imported as local`.
#[derive(Debug, Clone, PartialEq)]
pub struct ImportBinding {
    pub imported: Id,
    pub local: Id,
}

#[derive(Debug, Clone, PartialEq)]
pub enum ImportSpecifier {
    /// `import {foo, bar, baz as qux} from './mod'`, in the order written.
    Import(Vec<ImportBinding>),
    /// `import foo from './mod'`
    ImportDefault(Id),
    /// `import * as foo from './mod'`
    ImportNamespaced(Id),
}

#[derive(Debug, PartialEq)]
pub struct FunctionDeclaration {
    pub id: Id,
    pub function: Function,
}

#[derive(Debug, PartialEq)]
pub struct VariableDeclaration {
    pub kind: VariableDeclarationKind,
    pub declarations: Vec<VariableDeclarator>,
}

#[derive(Debug, Clone, Copy, PartialEq, Eq, Structural)]
pub enum VariableDeclarationKind {
    Var,
    Let,
    Const,
}

#[derive(Debug, PartialEq)]
pub struct VariableDeclarator {
    pub id: Pattern,
    pub init: Option<Expression>,
}

#[derive(Debug, PartialEq)]
pub enum Expression {
    Id { id: Id },
    Literal { literal: Literal },
    This,
    Super,
    Array { elements: Vec<Expression> },
    Object { properties: Vec<Property> },
    Function { function: Function },
    Unary { operator: UnaryOperator, prefix: bool, argument: Box<Expression> },
    /// `++` or `--`, before or after its operand.
    Update { operator: UpdateOperator, argument: Box<Expression>, prefix: bool },
    /// Arithmetic, comparison, bitwise and logical operators alike.
    Binary { operator: BinaryOperator, left: Box<Expression>, right: Box<Expression> },
    Assignment { operator: AssignmentOperator, left: Box<AssignmentLeft>, right: Box<Expression> },
    Member { object: Box<Expression>, property: Box<Expression>, computed: bool },
    Conditional { test: Box<Expression>, alternate: Box<Expression>, consequent: Box<Expression> },
    Call { callee: Box<Expression>, arguments: Vec<Expression> },
    New { callee: Box<Expression>, arguments: Vec<Expression> },
    /// Expressions separated by commas.
    Sequence { expressions: Vec<Expression> },
    Spread { expression: Box<Expression> },
    /// `expression` records whether the body was written as an expression.
    ArrowFunction { body: Box<ArrowFunctionBody>, expression: bool },
    Yield { argument: Option<Box<Expression>>, delegate: bool },
    TemplateLiteral { quasis: Vec<TemplateElement>, expressions: Vec<Expression> },
    /// `quasi` is a template literal.
    TaggedTemplate { tag: Box<Expression>, quasi: Box<Expression> },
}

#[derive(Debug, PartialEq)]
pub struct Property {
    pub key: PropertyKey,
    pub value: Expression,
    pub kind: PropertyKind,
}

#[derive(Debug, PartialEq)]
pub enum PropertyKey {
    Literal(Literal),
    Id(Id),
    Expression(Expression),
}

#[derive(Debug, Clone, Copy, PartialEq, Eq, Structural)]
pub enum PropertyKind {
    Init,
    Get,
    Setter,
}

#[derive(Debug, Clone, Copy, PartialEq, Eq, Structural)]
pub enum UnaryOperator {
    Minus,
    Plus,
    Not,
    BitwiseNot,
    Typeof,
    Void,
    Delete,
}

#[derive(Debug, Clone, Copy, PartialEq, Eq, Structural)]
pub enum UpdateOperator {
    Increment,
    Decrement,
}

#[derive(Debug, Clone, Copy, PartialEq, Eq, Structural)]
pub enum BinaryOperator {
    EqEq,
    NotEq,
    EqEqEq,
    NotEqEq,
    Lt,
    Lte,
    Gt,
    Gte,
    Shl,
    Shr,
    UnsignedShr,
    Plus,
    Minus,
    Multiply,
    Divide,
    Mod,
    BitwiseOr,
    Or,
    BitwiseXor,
    BitwiseAnd,
    And,
    In,
    InstanceOf,
}

#[derive(Debug, Clone, Copy, PartialEq, Eq, Structural)]
pub enum AssignmentOperator {
    Eq,
    PlusEq,
    MinusEq,
    MultiplyEq,
    DivideEq,
    ModEq,
    ShlEq,
    ShrEq,
    UnsignedShrEq,
    BitwiseOrEq,
    BitwiseXorEq,
    BitwiseAndEq,
}

#[derive(Debug, PartialEq)]
pub enum AssignmentLeft {
    Pattern(Pattern),
    Expression(Expression),
}

#[derive(Debug, PartialEq)]
pub enum ArrowFunctionBody {
    FunctionBody(FunctionBody),
    Expression(Expression),
}

#[derive(Debug, PartialEq)]
pub enum Pattern {
    Id { id: Id },
    Object { properties: Vec<Pattern> },
    Array { elements: Vec<Pattern> },
    Rest,
    Assignment { left: Box<Pattern>, right: Expression },
}

} // verus!
