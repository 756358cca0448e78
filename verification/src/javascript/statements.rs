//! The grammar of statements: imports of a default export, of a whole module
//! or of exports by name, function declarations and declarations of one
//! variable, each optionally closed by a semicolon, with white space and
//! comments allowed between any two tokens.

use vstd::prelude::*;
use crate::javascript::ast::{
    Expression, FunctionBodyStatement, ImportBinding, ImportSpecifier, Literal, Pattern, Program,
    SourceType, Statement, VariableDeclarationKind,
};
use crate::javascript::error::{failure, ParseError, ParseErrorKind};
use crate::javascript::grammar::{char_at, identifier, skip_tokens, string_literal, Reading};
use crate::text::has_text;

verus! {

/// What an import brings in.
pub enum Imported {
    /// `import local from ...`: the default export under a local name.
    Default(Seq<char>),
    /// `import * as local from ...`: the whole module under a local name.
    Namespace(Seq<char>),
    /// `import {a, b as c} from ...`: exports by name, each with the name
    /// that it is imported under and its local name.
    Named(Seq<(Seq<char>, Seq<char>)>),
}

/// What a statement of this grammar says.
pub enum Item {
    /// `import what from 'source'`
    Import { what: Imported, source: Seq<char> },
    /// `function name(params) { body }`
    Function { name: Seq<char>, params: Seq<Seq<char>>, body: Seq<Item> },
    /// `var name`, `let name` or `const name`, alone or with the module at
    /// a path as its value: `const name = require('path')`
    Variable { kind: VariableDeclarationKind, name: Seq<char>, value: Option<Seq<char>> },
}

/// Whether the tree `s` is the statement that says `item`, with nothing
/// added: a default import, a plain function whose parameters are names, or
/// a declaration of one name without a value.
pub open spec fn describes(item: Item, s: Statement) -> bool
    decreases item, 0int,
{
    match item {
        Item::Import { what, source } => match s {
            Statement::Import(specifier, from) => imports(what, specifier) && from@ == source,
            _ => false,
        },
        Item::Variable { kind, name, value } => match s {
            Statement::VariableDeclaration { declaration } => declaration.kind == kind
                && declaration.declarations@.len() == 1 && names(
                name,
                declaration.declarations@[0].id,
            ) && (match value {
                None => declaration.declarations@[0].init is None,
                Some(path) => declaration.declarations@[0].init matches Some(e) && is_require(
                    e,
                    path,
                ),
            }),
            _ => false,
        },
        Item::Function { name, params, body } => match s {
            Statement::FunctionDeclaration { declaration } => {
                &&& declaration.id@ == name
                &&& declaration.function.id is Some
                &&& declaration.function.id->Some_0@ == name
                &&& !declaration.function.generator
                &&& declaration.function.params@.len() == params.len()
                &&& forall|i: int|
                    0 <= i < params.len() ==> names(
                        params[i],
                        #[trigger] declaration.function.params@[i],
                    )
                &&& declaration.function.body@.len() == body.len()
                &&& forall|i: int|
                    0 <= i < body.len() ==> describes_in_body(
                        body[i],
                        #[trigger] declaration.function.body@[i],
                    )
            },
            _ => false,
        },
    }
}

/// Whether `e` is the call of `require` with the string `path` as its one
/// argument.
pub open spec fn is_require(e: Expression, path: Seq<char>) -> bool {
    match e {
        Expression::Call { callee, arguments } => {
            &&& *callee matches Expression::Id { id } && id@ == "require"@
            &&& arguments@.len() == 1
            &&& arguments@[0] matches Expression::Literal { literal: Literal::StringLiteral(v) }
                && v@ == path
        },
        _ => false,
    }
}

/// Whether the specifier brings in what `what` says.
pub open spec fn imports(what: Imported, specifier: ImportSpecifier) -> bool {
    match what {
        Imported::Default(local) => match specifier {
            ImportSpecifier::ImportDefault(id) => id@ == local,
            _ => false,
        },
        Imported::Namespace(local) => match specifier {
            ImportSpecifier::ImportNamespaced(id) => id@ == local,
            _ => false,
        },
        Imported::Named(pairs) => match specifier {
            ImportSpecifier::Import(bindings) => binds(pairs, bindings@),
            _ => false,
        },
    }
}

/// Whether the bindings are the pairs of names, one by one.
pub open spec fn binds(pairs: Seq<(Seq<char>, Seq<char>)>, bindings: Seq<ImportBinding>) -> bool {
    pairs.len() == bindings.len() && forall|i: int|
        0 <= i < pairs.len() ==> (#[trigger] bindings[i]).imported@ == pairs[i].0
            && bindings[i].local@ == pairs[i].1
}

/// Whether the pattern is the name `name` and nothing else.
pub open spec fn names(name: Seq<char>, p: Pattern) -> bool {
    match p {
        Pattern::Id { id } => id@ == name,
        _ => false,
    }
}

/// The same as `describes` for a statement of a function body.
pub open spec fn describes_in_body(item: Item, s: FunctionBodyStatement) -> bool
    decreases item, 1int,
{
    match s {
        FunctionBodyStatement::Statement(s) => describes(item, s),
        FunctionBodyStatement::Directive(_) => false,
    }
}

/// Whether the trees `v` are the statements that say `items`, one by one.
pub open spec fn describes_all(items: Seq<Item>, v: Seq<Statement>) -> bool {
    items.len() == v.len() && forall|i: int|
        0 <= i < items.len() ==> describes(items[i], #[trigger] v[i])
}

/// Where a statement ends that stops at `pos`: after the white space and
/// comments that follow, and after a semicolon and what follows it, if one
/// stands there.
pub open spec fn statement_end(s: Seq<char>, pos: int) -> int {
    if char_at(s, skip_tokens(s, pos), ';') {
        skip_tokens(s, skip_tokens(s, pos) + 1)
    } else {
        skip_tokens(s, pos)
    }
}

/// One name of a named import: a name, or a name, `as` and the local name.
/// The reading stops after the last name.
pub open spec fn import_binding(s: Seq<char>, pos: int) -> Reading<(Seq<char>, Seq<char>)> {
    match identifier(s, pos) {
        Err(e) => Err(e),
        Ok((imported, after)) => if has_text(s, skip_tokens(s, after), "as"@) {
            match identifier(s, skip_tokens(s, skip_tokens(s, after) + 2)) {
                Err(e) => Err(e),
                Ok((local, end)) => Ok(((imported, local), end)),
            }
        } else {
            Ok(((imported, imported), after))
        },
    }
}

/// One name of a named import or more, separated by commas. The reading
/// stops at the first token after the last of them.
pub open spec fn import_binding_list(s: Seq<char>, pos: int) -> Reading<
    Seq<(Seq<char>, Seq<char>)>,
>
    decreases s.len() - pos,
{
    match import_binding(s, pos) {
        Err(e) => Err(e),
        Ok((pair, after)) => {
            let next = skip_tokens(s, after);
            if char_at(s, next, ',') && pos < skip_tokens(s, next + 1) <= s.len() {
                match import_binding_list(s, skip_tokens(s, next + 1)) {
                    Err(e) => Err(e),
                    Ok((rest, end)) => Ok((seq![pair] + rest, end)),
                }
            } else {
                Ok((seq![pair], next))
            }
        },
    }
}

/// The names between the braces of a named import, after the opening one:
/// none, or names separated by commas. The reading stops at the closing
/// brace.
pub open spec fn import_bindings(s: Seq<char>, pos: int) -> Reading<Seq<(Seq<char>, Seq<char>)>> {
    if char_at(s, pos, '}') {
        Ok((Seq::empty(), pos))
    } else {
        match import_binding_list(s, pos) {
            Err(e) => Err(e),
            Ok((pairs, end)) => if char_at(s, end, '}') {
                Ok((pairs, end))
            } else {
                Err(failure(ParseErrorKind::Token, end))
            },
        }
    }
}

/// What an import brings in: `* as` and a name, names in braces, or one
/// name.
pub open spec fn import_clause(s: Seq<char>, pos: int) -> Reading<Imported> {
    if char_at(s, pos, '*') {
        if !has_text(s, skip_tokens(s, pos + 1), "as"@) {
            Err(failure(ParseErrorKind::Token, skip_tokens(s, pos + 1)))
        } else {
            match identifier(s, skip_tokens(s, skip_tokens(s, pos + 1) + 2)) {
                Err(e) => Err(e),
                Ok((local, end)) => Ok((Imported::Namespace(local), end)),
            }
        }
    } else if char_at(s, pos, '{') {
        match import_bindings(s, skip_tokens(s, pos + 1)) {
            Err(e) => Err(e),
            Ok((pairs, close)) => Ok((Imported::Named(pairs), close + 1)),
        }
    } else {
        match identifier(s, pos) {
            Err(e) => Err(e),
            Ok((local, end)) => Ok((Imported::Default(local), end)),
        }
    }
}

/// `import`, what is imported, `from` and a string. The reading stops after
/// the string.
pub open spec fn import_statement(s: Seq<char>, pos: int) -> Reading<Item> {
    if !has_text(s, pos, "import"@) {
        Err(failure(ParseErrorKind::Token, pos))
    } else {
        match import_clause(s, skip_tokens(s, pos + 6)) {
            Err(e) => Err(e),
            Ok((what, after_clause)) => {
                let from = skip_tokens(s, after_clause);
                if !has_text(s, from, "from"@) {
                    Err(failure(ParseErrorKind::Token, from))
                } else {
                    match string_literal(s, skip_tokens(s, from + 4)) {
                        Err(e) => Err(e),
                        Ok((source, end)) => Ok((Item::Import { what, source }, end)),
                    }
                }
            },
        }
    }
}

/// The kind of declaration that the word at `pos` opens, and where the word
/// ends.
pub open spec fn var_declaration_kind(s: Seq<char>, pos: int) -> Reading<VariableDeclarationKind> {
    if has_text(s, pos, "var"@) {
        Ok((VariableDeclarationKind::Var, pos + 3))
    } else if has_text(s, pos, "let"@) {
        Ok((VariableDeclarationKind::Let, pos + 3))
    } else if has_text(s, pos, "const"@) {
        Ok((VariableDeclarationKind::Const, pos + 5))
    } else {
        Err(failure(ParseErrorKind::Statement, pos))
    }
}

/// `require` and a string in parentheses: the string. The reading stops
/// after the closing parenthesis.
pub open spec fn require_call(s: Seq<char>, pos: int) -> Reading<Seq<char>> {
    if !has_text(s, pos, "require"@) {
        Err(failure(ParseErrorKind::Token, pos))
    } else if !char_at(s, skip_tokens(s, pos + 7), '(') {
        Err(failure(ParseErrorKind::Token, skip_tokens(s, pos + 7)))
    } else {
        match string_literal(s, skip_tokens(s, skip_tokens(s, pos + 7) + 1)) {
            Err(e) => Err(e),
            Ok((path, after)) => if char_at(s, skip_tokens(s, after), ')') {
                Ok((path, skip_tokens(s, after) + 1))
            } else {
                Err(failure(ParseErrorKind::Token, skip_tokens(s, after)))
            },
        }
    }
}

/// `var`, `let` or `const`, and a name; after it, if an equals sign
/// follows, a call of `require`. The reading stops after the name, or after
/// the call.
pub open spec fn var_declaration(s: Seq<char>, pos: int) -> Reading<Item> {
    match var_declaration_kind(s, pos) {
        Err(e) => Err(e),
        Ok((kind, after_kind)) => match identifier(s, skip_tokens(s, after_kind)) {
            Err(e) => Err(e),
            Ok((name, end)) => if char_at(s, skip_tokens(s, end), '=') {
                match require_call(s, skip_tokens(s, skip_tokens(s, end) + 1)) {
                    Err(e) => Err(e),
                    Ok((path, stop)) => Ok((Item::Variable { kind, name, value: Some(path) }, stop)),
                }
            } else {
                Ok((Item::Variable { kind, name, value: None }, end))
            },
        },
    }
}

/// One name or more, separated by commas. The reading stops at the first
/// token after the last name.
pub open spec fn parameter_names(s: Seq<char>, pos: int) -> Reading<Seq<Seq<char>>>
    decreases s.len() - pos,
{
    match identifier(s, pos) {
        Err(e) => Err(e),
        Ok((name, after_name)) => {
            let next = skip_tokens(s, after_name);
            if char_at(s, next, ',') && pos < skip_tokens(s, next + 1) <= s.len() {
                match parameter_names(s, skip_tokens(s, next + 1)) {
                    Err(e) => Err(e),
                    Ok((rest, end)) => Ok((seq![name] + rest, end)),
                }
            } else {
                Ok((seq![name], next))
            }
        },
    }
}

/// The parameters between the parentheses of a function, after the opening
/// one: none, or names separated by commas. The reading stops at the closing
/// parenthesis.
pub open spec fn parameters(s: Seq<char>, pos: int) -> Reading<Seq<Seq<char>>> {
    if char_at(s, pos, ')') {
        Ok((Seq::empty(), pos))
    } else {
        match parameter_names(s, pos) {
            Err(e) => Err(e),
            Ok((names, end)) => if char_at(s, end, ')') {
                Ok((names, end))
            } else {
                Err(failure(ParseErrorKind::Token, end))
            },
        }
    }
}

/// Whether a statement begins at `pos`: one of the words that open one
/// stands there.
pub open spec fn starts_statement(s: Seq<char>, pos: int) -> bool {
    has_text(s, pos, "import"@) || has_text(s, pos, "function"@) || has_text(s, pos, "var"@)
        || has_text(s, pos, "let"@) || has_text(s, pos, "const"@)
}

/// `function`, a name, the parameters in parentheses and the body in braces.
/// The reading stops after the closing brace.
pub open spec fn function_declaration(s: Seq<char>, pos: int) -> Reading<Item>
    decreases s.len() - pos, 0int,
{
    if !has_text(s, pos, "function"@) {
        Err(failure(ParseErrorKind::Token, pos))
    } else {
        match identifier(s, skip_tokens(s, pos + 8)) {
            Err(e) => Err(e),
            Ok((name, after_name)) => {
                let open = skip_tokens(s, after_name);
                if !char_at(s, open, '(') {
                    Err(failure(ParseErrorKind::Token, open))
                } else {
                    match parameters(s, skip_tokens(s, open + 1)) {
                        Err(e) => Err(e),
                        Ok((params, close)) => {
                            let brace = skip_tokens(s, close + 1);
                            let inside = skip_tokens(s, brace + 1);
                            if !char_at(s, brace, '{') || !(pos < inside <= s.len()) {
                                Err(failure(ParseErrorKind::Token, brace))
                            } else {
                                match statements(s, inside) {
                                    Err(e) => Err(e),
                                    Ok((body, end)) => if char_at(s, end, '}') {
                                        Ok((Item::Function { name, params, body }, end + 1))
                                    } else {
                                        Err(failure(ParseErrorKind::Token, end))
                                    },
                                }
                            }
                        },
                    }
                }
            },
        }
    }
}

/// One statement: an import, a function declaration or a variable
/// declaration, whichever the word at `pos` opens, and what closes it.
pub open spec fn statement(s: Seq<char>, pos: int) -> Reading<Item>
    decreases s.len() - pos, 1int,
{
    let read = if has_text(s, pos, "import"@) {
        import_statement(s, pos)
    } else if has_text(s, pos, "function"@) {
        function_declaration(s, pos)
    } else {
        var_declaration(s, pos)
    };
    match read {
        Err(e) => Err(e),
        Ok((item, end)) => Ok((item, statement_end(s, end))),
    }
}

/// The statements that follow one another from `pos`, up to the first place
/// where none begins.
pub open spec fn statements(s: Seq<char>, pos: int) -> Reading<Seq<Item>>
    decreases s.len() - pos, 2int,
{
    if !starts_statement(s, pos) {
        Ok((Seq::empty(), pos))
    } else {
        match statement(s, pos) {
            Err(e) => Err(e),
            Ok((item, end)) => if pos < end <= s.len() {
                match statements(s, end) {
                    Err(e) => Err(e),
                    Ok((rest, stop)) => Ok((seq![item] + rest, stop)),
                }
            } else {
                Err(failure(ParseErrorKind::Statement, pos))
            },
        }
    }
}

/// A whole text: white space and comments, then statements up to the end.
pub open spec fn program(s: Seq<char>) -> Result<Seq<Item>, ParseError> {
    match statements(s, skip_tokens(s, 0)) {
        Err(e) => Err(e),
        Ok((items, end)) => if end == s.len() {
            Ok(items)
        } else {
            Err(failure(ParseErrorKind::Trailing, end))
        },
    }
}

/// Whether the tree `p` is the module that says `items`.
pub open spec fn describes_program(items: Seq<Item>, p: Program) -> bool {
    p.source_type == SourceType::Module && describes_all(items, p.body@)
}

} // verus!
