//! The parser: from source text to the tree of a module.

use vstd::prelude::*;
use crate::javascript::ast::{
    Expression, Function, FunctionBodyStatement, FunctionDeclaration, ImportBinding,
    ImportSpecifier, Literal, Pattern, Program, SourceType, Statement, VariableDeclaration,
    VariableDeclarationKind, VariableDeclarator,
};
use crate::javascript::error::{ParseError, ParseErrorKind};
use crate::javascript::grammar::Reading;
use crate::javascript::lexer::{agrees, fail, identifier, skip_tokens, string_literal, within};
use crate::javascript::statements;
use crate::javascript::statements::{
    binds, describes, describes_all, describes_program, imports, names, Imported, Item,
};
use crate::text::{starts_with_at, to_chars};

verus! {

/// Whether what a reader of statements returned is what the grammar says:
/// the same place, and a tree that says what the grammar read.
pub open spec fn reads_item(r: Result<(Statement, usize), ParseError>, g: Reading<Item>) -> bool {
    match r {
        Ok((st, end)) => g is Ok && g->Ok_0.1 == end && describes(g->Ok_0.0, st),
        Err(e) => g == Err::<(Item, int), ParseError>(e),
    }
}

/// The same for a reader of several statements.
pub open spec fn reads_items(r: Result<(Vec<Statement>, usize), ParseError>, g: Reading<Seq<Item>>)
    -> bool {
    match r {
        Ok((v, end)) => g is Ok && g->Ok_0.1 == end && describes_all(g->Ok_0.0, v@),
        Err(e) => g == Err::<(Seq<Item>, int), ParseError>(e),
    }
}

/// A reading of items with `items` put before what was read.
pub open spec fn after_items(items: Seq<Item>, g: Reading<Seq<Item>>) -> Reading<Seq<Item>> {
    match g {
        Ok((rest, end)) => Ok((items + rest, end)),
        Err(e) => Err(e),
    }
}

/// A reading of names with `names` put before what was read.
pub open spec fn after_names(names: Seq<Seq<char>>, g: Reading<Seq<Seq<char>>>) -> Reading<
    Seq<Seq<char>>,
> {
    match g {
        Ok((rest, end)) => Ok((names + rest, end)),
        Err(e) => Err(e),
    }
}

/// Where a statement ends that stops at `pos`.
fn statement_end(s: &[char], pos: usize) -> (end: usize)
    requires
        pos <= s@.len(),
    ensures
        end == statements::statement_end(s@, pos as int),
        pos <= end <= s@.len(),
{
    let next = skip_tokens(s, pos);
    if next < s.len() && s[next] == ';' {
        skip_tokens(s, next + 1)
    } else {
        next
    }
}

/// A reading of pairs of names with `pairs` put before what was read.
pub open spec fn after_pairs(
    pairs: Seq<(Seq<char>, Seq<char>)>,
    g: Reading<Seq<(Seq<char>, Seq<char>)>>,
) -> Reading<Seq<(Seq<char>, Seq<char>)>> {
    match g {
        Ok((rest, end)) => Ok((pairs + rest, end)),
        Err(e) => Err(e),
    }
}

/// Reads one name of a named import, with its local name where it has one.
fn import_binding(s: &[char], pos: usize) -> (r: Result<(ImportBinding, usize), ParseError>)
    ensures
        match r {
            Ok((b, end)) => statements::import_binding(s@, pos as int) == Ok::<
                ((Seq<char>, Seq<char>), int),
                ParseError,
            >(((b.imported@, b.local@), end as int)) && pos < end <= s@.len(),
            Err(e) => statements::import_binding(s@, pos as int) == Err::<
                ((Seq<char>, Seq<char>), int),
                ParseError,
            >(e),
        },
{
    proof {
        reveal_strlit("as");
    }
    let (imported, after) = match identifier(s, pos) {
        Ok(read) => read,
        Err(e) => {
            return Err(e);
        },
    };
    let word = skip_tokens(s, after);
    if starts_with_at(s, word, "as") {
        match identifier(s, skip_tokens(s, word + 2)) {
            Ok((local, end)) => Ok((ImportBinding { imported, local }, end)),
            Err(e) => Err(e),
        }
    } else {
        let local = imported.clone();
        Ok((ImportBinding { imported, local }, after))
    }
}

/// Reads the names between the braces of a named import, after the opening
/// brace and up to the closing one.
fn import_bindings(s: &[char], pos: usize) -> (r: Result<(Vec<ImportBinding>, usize), ParseError>)
    requires
        pos <= s@.len(),
    ensures
        match r {
            Ok((v, end)) => {
                let g = statements::import_bindings(s@, pos as int);
                &&& g is Ok
                &&& g->Ok_0.1 == end
                &&& binds(g->Ok_0.0, v@)
                &&& pos <= end < s@.len()
            },
            Err(e) => statements::import_bindings(s@, pos as int) == Err::<
                (Seq<(Seq<char>, Seq<char>)>, int),
                ParseError,
            >(e),
        },
{
    let mut bindings: Vec<ImportBinding> = Vec::new();
    if pos < s.len() && s[pos] == '}' {
        return Ok((bindings, pos));
    }
    let ghost mut read: Seq<(Seq<char>, Seq<char>)> = Seq::empty();
    let mut i: usize = pos;
    proof {
        let g = statements::import_binding_list(s@, i as int);
        if g is Ok {
            assert(read + g->Ok_0.0 =~= g->Ok_0.0);
        }
    }
    loop
        invariant
            pos <= i <= s@.len(),
            !crate::javascript::grammar::char_at(s@, pos as int, '}'),
            binds(read, bindings@),
            statements::import_binding_list(s@, pos as int) == after_pairs(
                read,
                statements::import_binding_list(s@, i as int),
            ),
        decreases s@.len() - i,
    {
        let (binding, after) = match import_binding(s, i) {
            Ok(found) => found,
            Err(e) => {
                return Err(e);
            },
        };
        let next = skip_tokens(s, after);
        let ghost pair = (binding.imported@, binding.local@);
        proof {
            assert(binds(read.push(pair), bindings@.push(binding)));
        }
        bindings.push(binding);
        if next < s.len() && s[next] == ',' {
            let following = skip_tokens(s, next + 1);
            proof {
                let rest = statements::import_binding_list(s@, following as int);
                if rest is Ok {
                    assert(read + (seq![pair] + rest->Ok_0.0) =~= read.push(pair) + rest->Ok_0.0);
                }
                read = read.push(pair);
            }
            i = following;
        } else {
            proof {
                assert(read + seq![pair] =~= read.push(pair));
                read = read.push(pair);
            }
            if next < s.len() && s[next] == '}' {
                return Ok((bindings, next));
            } else {
                return fail(ParseErrorKind::Token, next);
            }
        }
    }
}

/// Reads what an import brings in.
fn import_clause(s: &[char], pos: usize) -> (r: Result<(ImportSpecifier, usize), ParseError>)
    requires
        pos <= s@.len(),
    ensures
        match r {
            Ok((specifier, end)) => {
                let g = statements::import_clause(s@, pos as int);
                &&& g is Ok
                &&& g->Ok_0.1 == end
                &&& imports(g->Ok_0.0, specifier)
                &&& pos <= end <= s@.len()
            },
            Err(e) => statements::import_clause(s@, pos as int) == Err::<(Imported, int), ParseError>(
                e,
            ),
        },
{
    proof {
        reveal_strlit("as");
    }
    if pos < s.len() && s[pos] == '*' {
        let word = skip_tokens(s, pos + 1);
        if !starts_with_at(s, word, "as") {
            return fail(ParseErrorKind::Token, word);
        }
        match identifier(s, skip_tokens(s, word + 2)) {
            Ok((local, end)) => Ok((ImportSpecifier::ImportNamespaced(local), end)),
            Err(e) => Err(e),
        }
    } else if pos < s.len() && s[pos] == '{' {
        match import_bindings(s, skip_tokens(s, pos + 1)) {
            Ok((bindings, close)) => Ok((ImportSpecifier::Import(bindings), close + 1)),
            Err(e) => Err(e),
        }
    } else {
        match identifier(s, pos) {
            Ok((local, end)) => Ok((ImportSpecifier::ImportDefault(local), end)),
            Err(e) => Err(e),
        }
    }
}

/// Reads an import: `import name from 'source'`, `import * as name from
/// 'source'` or `import {name, name as name} from 'source'`.
pub fn import_statement(s: &[char], pos: usize) -> (r: Result<(Statement, usize), ParseError>)
    ensures
        reads_item(r, statements::import_statement(s@, pos as int)),
        within(r, pos, s@.len()),
{
    proof {
        reveal_strlit("import");
        reveal_strlit("from");
    }
    if !starts_with_at(s, pos, "import") {
        return fail(ParseErrorKind::Token, pos);
    }
    let (specifier, after_clause) = match import_clause(s, skip_tokens(s, pos + 6)) {
        Ok(read) => read,
        Err(e) => {
            return Err(e);
        },
    };
    let from = skip_tokens(s, after_clause);
    if !starts_with_at(s, from, "from") {
        return fail(ParseErrorKind::Token, from);
    }
    let (source, end) = match string_literal(s, skip_tokens(s, from + 4)) {
        Ok(read) => read,
        Err(e) => {
            return Err(e);
        },
    };
    Ok((Statement::Import(specifier, source), end))
}

/// Reads `var`, `let` or `const`.
pub fn var_declaration_kind(s: &[char], pos: usize) -> (r: Result<
    (VariableDeclarationKind, usize),
    ParseError,
>)
    ensures
        agrees(r, statements::var_declaration_kind(s@, pos as int)),
        within(r, pos, s@.len()),
{
    proof {
        reveal_strlit("var");
        reveal_strlit("let");
        reveal_strlit("const");
    }
    if starts_with_at(s, pos, "var") {
        Ok((VariableDeclarationKind::Var, pos + 3))
    } else if starts_with_at(s, pos, "let") {
        Ok((VariableDeclarationKind::Let, pos + 3))
    } else if starts_with_at(s, pos, "const") {
        Ok((VariableDeclarationKind::Const, pos + 5))
    } else {
        fail(ParseErrorKind::Statement, pos)
    }
}

/// Reads a call of `require` with a string as its argument, and gives the
/// call.
fn require_call(s: &[char], pos: usize) -> (r: Result<(Expression, usize), ParseError>)
    ensures
        match r {
            Ok((e, end)) => statements::require_call(s@, pos as int) is Ok
                && statements::require_call(s@, pos as int)->Ok_0.1 == end
                && statements::is_require(e, statements::require_call(s@, pos as int)->Ok_0.0)
                && pos < end <= s@.len(),
            Err(e) => statements::require_call(s@, pos as int) == Err::<
                (Seq<char>, int),
                ParseError,
            >(e),
        },
{
    proof {
        reveal_strlit("require");
    }
    if !starts_with_at(s, pos, "require") {
        return fail(ParseErrorKind::Token, pos);
    }
    let open = skip_tokens(s, pos + 7);
    if !(open < s.len() && s[open] == '(') {
        return fail(ParseErrorKind::Token, open);
    }
    let (path, after) = match string_literal(s, skip_tokens(s, open + 1)) {
        Ok(read) => read,
        Err(e) => {
            return Err(e);
        },
    };
    let close = skip_tokens(s, after);
    if !(close < s.len() && s[close] == ')') {
        return fail(ParseErrorKind::Token, close);
    }
    let callee = Expression::Id { id: "require".to_owned() };
    let mut arguments: Vec<Expression> = Vec::new();
    arguments.push(Expression::Literal { literal: Literal::StringLiteral(path) });
    Ok((Expression::Call { callee: Box::new(callee), arguments }, close + 1))
}

/// Reads the declaration of one name, alone or with a call of `require` as
/// its value.
pub fn var_declaration(s: &[char], pos: usize) -> (r: Result<(Statement, usize), ParseError>)
    ensures
        reads_item(r, statements::var_declaration(s@, pos as int)),
        within(r, pos, s@.len()),
{
    let (kind, after_kind) = match var_declaration_kind(s, pos) {
        Ok(read) => read,
        Err(e) => {
            return Err(e);
        },
    };
    let (name, end) = match identifier(s, skip_tokens(s, after_kind)) {
        Ok(read) => read,
        Err(e) => {
            return Err(e);
        },
    };
    let sign = skip_tokens(s, end);
    let (init, stop) = if sign < s.len() && s[sign] == '=' {
        match require_call(s, skip_tokens(s, sign + 1)) {
            Ok((call, stop)) => (Some(call), stop),
            Err(e) => {
                return Err(e);
            },
        }
    } else {
        (None, end)
    };
    let mut declarations: Vec<VariableDeclarator> = Vec::new();
    declarations.push(VariableDeclarator { id: Pattern::Id { id: name }, init });
    Ok((Statement::VariableDeclaration { declaration: VariableDeclaration { kind, declarations } }, stop))
}

/// Reads the parameters of a function, after the opening parenthesis and up
/// to the closing one.
fn parameters(s: &[char], pos: usize) -> (r: Result<(Vec<Pattern>, usize), ParseError>)
    requires
        pos <= s@.len(),
    ensures
        match r {
            Ok((v, end)) => {
                let g = statements::parameters(s@, pos as int);
                &&& g is Ok
                &&& g->Ok_0.1 == end
                &&& g->Ok_0.0.len() == v@.len()
                &&& forall|i: int| 0 <= i < v@.len() ==> names(g->Ok_0.0[i], #[trigger] v@[i])
                &&& pos <= end < s@.len()
                &&& s@[end as int] == ')'
            },
            Err(e) => statements::parameters(s@, pos as int) == Err::<
                (Seq<Seq<char>>, int),
                ParseError,
            >(e),
        },
{
    let mut params: Vec<Pattern> = Vec::new();
    if pos < s.len() && s[pos] == ')' {
        return Ok((params, pos));
    }
    let ghost mut read: Seq<Seq<char>> = Seq::empty();
    let mut i: usize = pos;
    proof {
        let g = statements::parameter_names(s@, i as int);
        if g is Ok {
            assert(read + g->Ok_0.0 =~= g->Ok_0.0);
        }
    }
    loop
        invariant
            pos <= i <= s@.len(),
            !crate::javascript::grammar::char_at(s@, pos as int, ')'),
            read.len() == params@.len(),
            forall|k: int| 0 <= k < params@.len() ==> names(read[k], #[trigger] params@[k]),
            statements::parameter_names(s@, pos as int) == after_names(
                read,
                statements::parameter_names(s@, i as int),
            ),
        decreases s@.len() - i,
    {
        let (name, after_name) = match identifier(s, i) {
            Ok(found) => found,
            Err(e) => {
                return Err(e);
            },
        };
        let next = skip_tokens(s, after_name);
        params.push(Pattern::Id { id: name });
        if next < s.len() && s[next] == ',' {
            let following = skip_tokens(s, next + 1);
            proof {
                let old_read = read;
                read = read.push(name@);
                let rest = statements::parameter_names(s@, following as int);
                if rest is Ok {
                    assert(old_read + (seq![name@] + rest->Ok_0.0) =~= read + rest->Ok_0.0);
                }
            }
            i = following;
        } else {
            proof {
                assert(read + seq![name@] =~= read.push(name@));
                read = read.push(name@);
            }
            if next < s.len() && s[next] == ')' {
                return Ok((params, next));
            } else {
                return fail(ParseErrorKind::Token, next);
            }
        }
    }
}

/// Wraps each statement as a statement of a function body, in order.
fn into_body(statements: Vec<Statement>) -> (body: Vec<FunctionBodyStatement>)
    ensures
        body@.len() == statements@.len(),
        forall|i: int|
            0 <= i < body@.len() ==> #[trigger] body@[i] == FunctionBodyStatement::Statement(
                statements@[i],
            ),
{
    let ghost all = statements@;
    let mut rest = statements;
    let mut reversed: Vec<FunctionBodyStatement> = Vec::new();
    while rest.len() > 0
        invariant
            rest@.len() + reversed@.len() == all.len(),
            forall|i: int| 0 <= i < rest@.len() ==> rest@[i] == all[i],
            forall|i: int|
                0 <= i < reversed@.len() ==> #[trigger] reversed@[i]
                    == FunctionBodyStatement::Statement(all[all.len() - 1 - i]),
        decreases rest@.len(),
    {
        match rest.pop() {
            Some(st) => reversed.push(FunctionBodyStatement::Statement(st)),
            None => {},
        }
    }
    let mut body: Vec<FunctionBodyStatement> = Vec::new();
    while reversed.len() > 0
        invariant
            body@.len() + reversed@.len() == all.len(),
            forall|i: int|
                0 <= i < reversed@.len() ==> #[trigger] reversed@[i]
                    == FunctionBodyStatement::Statement(all[all.len() - 1 - i]),
            forall|i: int|
                0 <= i < body@.len() ==> #[trigger] body@[i] == FunctionBodyStatement::Statement(
                    all[i],
                ),
        decreases reversed@.len(),
    {
        match reversed.pop() {
            Some(b) => body.push(b),
            None => {},
        }
    }
    body
}

/// Reads `function name(parameters) { statements }`.
pub fn function_declaration(s: &[char], pos: usize) -> (r: Result<(Statement, usize), ParseError>)
    ensures
        reads_item(r, statements::function_declaration(s@, pos as int)),
        within(r, pos, s@.len()),
    decreases s@.len() - pos, 0int,
{
    proof {
        reveal_strlit("function");
    }
    if !starts_with_at(s, pos, "function") {
        return fail(ParseErrorKind::Token, pos);
    }
    let (name, after_name) = match identifier(s, skip_tokens(s, pos + 8)) {
        Ok(read) => read,
        Err(e) => {
            return Err(e);
        },
    };
    let open = skip_tokens(s, after_name);
    if !(open < s.len() && s[open] == '(') {
        return fail(ParseErrorKind::Token, open);
    }
    let (params, close) = match parameters(s, skip_tokens(s, open + 1)) {
        Ok(read) => read,
        Err(e) => {
            return Err(e);
        },
    };
    let brace = skip_tokens(s, close + 1);
    if !(brace < s.len() && s[brace] == '{') {
        return fail(ParseErrorKind::Token, brace);
    }
    let inside = skip_tokens(s, brace + 1);
    let (body, end) = match statement_list(s, inside) {
        Ok(read) => read,
        Err(e) => {
            return Err(e);
        },
    };
    if !(end < s.len() && s[end] == '}') {
        return fail(ParseErrorKind::Token, end);
    }
    let id = name.clone();
    let declaration = FunctionDeclaration {
        id,
        function: Function { id: Some(name), params, body: into_body(body), generator: false },
    };
    Ok((Statement::FunctionDeclaration { declaration }, end + 1))
}

/// Reads one statement and what closes it.
pub fn statement(s: &[char], pos: usize) -> (r: Result<(Statement, usize), ParseError>)
    ensures
        reads_item(r, statements::statement(s@, pos as int)),
        within(r, pos, s@.len()),
    decreases s@.len() - pos, 1int,
{
    let read = if starts_with_at(s, pos, "import") {
        import_statement(s, pos)
    } else if starts_with_at(s, pos, "function") {
        function_declaration(s, pos)
    } else {
        var_declaration(s, pos)
    };
    match read {
        Ok((st, end)) => Ok((st, statement_end(s, end))),
        Err(e) => Err(e),
    }
}

/// Whether a statement begins at `pos`.
fn starts_statement(s: &[char], pos: usize) -> (r: bool)
    ensures
        r == statements::starts_statement(s@, pos as int),
{
    starts_with_at(s, pos, "import") || starts_with_at(s, pos, "function") || starts_with_at(
        s,
        pos,
        "var",
    ) || starts_with_at(s, pos, "let") || starts_with_at(s, pos, "const")
}

/// Reads the statements that follow one another from `pos`.
pub fn statement_list(s: &[char], pos: usize) -> (r: Result<(Vec<Statement>, usize), ParseError>)
    ensures
        reads_items(r, statements::statements(s@, pos as int)),
        pos <= s@.len() ==> within(r, pos, s@.len()),
    decreases s@.len() - pos, 2int,
{
    let mut out: Vec<Statement> = Vec::new();
    if pos > s.len() {
        proof {
            reveal_strlit("import");
            reveal_strlit("function");
            reveal_strlit("var");
            reveal_strlit("let");
            reveal_strlit("const");
        }
        return Ok((out, pos));
    }
    let ghost mut items: Seq<Item> = Seq::empty();
    let mut i: usize = pos;
    proof {
        let g = statements::statements(s@, i as int);
        if g is Ok {
            assert(items + g->Ok_0.0 =~= g->Ok_0.0);
        }
    }
    while starts_statement(s, i)
        invariant
            pos <= i <= s@.len(),
            describes_all(items, out@),
            statements::statements(s@, pos as int) == after_items(
                items,
                statements::statements(s@, i as int),
            ),
        decreases s@.len() - i,
    {
        match statement(s, i) {
            Err(e) => {
                return Err(e);
            },
            Ok((st, end)) => {
                if end <= i {
                    return fail(ParseErrorKind::Statement, i);
                }
                proof {
                    let item = statements::statement(s@, i as int)->Ok_0.0;
                    let rest = statements::statements(s@, end as int);
                    if rest is Ok {
                        assert(items.push(item) + rest->Ok_0.0 =~= items + (seq![item]
                            + rest->Ok_0.0));
                    }
                    items = items.push(item);
                }
                out.push(st);
                i = end;
            },
        }
    }
    proof {
        assert(items + Seq::<Item>::empty() =~= items);
    }
    Ok((out, i))
}

/// Reads a whole text as a module.
pub fn program(s: &[char]) -> (r: Result<Program, ParseError>)
    ensures
        match r {
            Ok(p) => statements::program(s@) is Ok && describes_program(
                statements::program(s@)->Ok_0,
                p,
            ),
            Err(e) => statements::program(s@) == Err::<Seq<Item>, ParseError>(e),
        },
{
    let (body, end) = match statement_list(s, skip_tokens(s, 0)) {
        Ok(read) => read,
        Err(e) => {
            return Err(e);
        },
    };
    if end == s.len() {
        Ok(Program { source_type: SourceType::Module, body })
    } else {
        fail(ParseErrorKind::Trailing, end)
    }
}

/// Parses the source text of a module.
///
/// The result is the tree of the statements that the text holds, in their
/// order, where the whole text is statements of the grammar; else the error
/// of the first place where it is not.
pub fn parse(source: &str) -> (r: Result<Program, ParseError>)
    ensures
        match r {
            Ok(p) => statements::program(source@) is Ok && describes_program(
                statements::program(source@)->Ok_0,
                p,
            ),
            Err(e) => statements::program(source@) == Err::<Seq<Item>, ParseError>(e),
        },
{
    let chars = to_chars(source);
    program(&chars)
}

} // verus!
