//! The bundle: every module of the graph as a function in one table, keyed
//! by an identifier made from the module's text, and a call that starts the
//! entry module.

use vstd::prelude::*;
use vstd::set_lib::{lemma_int_range, lemma_len_subset, lemma_map_size, set_int_range};
use vstd::string::StringSliceAdditionalSpecFns;
use crate::error::{BuildError, Failure};
use crate::dependency::{
    lemma_one_node_per_path, lemma_order_holds_reached_modules, reachable, reaches, DependencyGraph,
};
use crate::graph::{
    follows_edges, graph_edges, graph_nodes, is_walk, lemma_walk_fits, node_count, walk_new,
    walk_next, walk_order, walk_rest,
};
use crate::io_utils::FileSystem;
use crate::javascript::ast::{
    Expression, ImportBinding, ImportSpecifier, Literal, Pattern, Statement, VariableDeclaration,
    VariableDeclarationKind, VariableDeclarator,
};
use crate::javascript::display::{string_text, write_statement, write_string};
use crate::javascript::syntax::{
    declarator_text, declarators_text, expression_text, precedence, stands_alone, statement_text,
    wrapped_text,
};
use crate::javascript::JsModule;
use crate::text::{
    append_str, equal, from_chars, has_text, lemma_concat_assoc, lemma_concat_empty, to_chars,
};

verus! {

/// The SHA-512 digest of a sequence of bytes.
pub uninterp spec fn sha512(data: Seq<u8>) -> Seq<u8>;

/// The longest input that the digest takes: its length in bits is counted
/// in 64 bits.
pub const MAX_DIGEST_INPUT: u64 = 0x1fff_ffff_ffff_ffff;

/// Computes a digest with `ring::digest::digest` and the algorithm
/// `ring::digest::SHA512`. The digest has 64 bytes. The function panics on
/// an input whose length in bits does not fit in 64 bits.
#[verifier::external_body]
fn digest_sha512(data: &[u8]) -> (r: Vec<u8>)
    requires
        data@.len() <= MAX_DIGEST_INPUT,
    ensures
        r@ == sha512(data@),
        r@.len() == 64,
{
    ring::digest::digest(&ring::digest::SHA512, data).as_ref().to_vec()
}

/// The character for a number below sixteen, in lower case.
pub open spec fn hex_digit_char(n: int) -> char {
    if n < 10 {
        (48 + n) as char
    } else {
        (87 + n) as char
    }
}

/// Bytes in hexadecimal: two digits for each byte, the higher one first.
pub open spec fn hex_text(data: Seq<u8>) -> Seq<char>
    decreases data.len(),
{
    if data.len() == 0 {
        Seq::empty()
    } else {
        hex_text(data.drop_last()) + seq![
            hex_digit_char(data.last() as int / 16),
            hex_digit_char(data.last() as int % 16),
        ]
    }
}

/// Writes bytes in hexadecimal with `hex::encode`, which gives two digits
/// for each byte, the higher one first, with letters in lower case.
#[verifier::external_body]
fn hex_encode(data: &[u8]) -> (r: String)
    ensures
        r@ == hex_text(data@),
{
    hex::encode(data)
}

/// Bytes in hexadecimal take two characters each.
pub proof fn lemma_hex_text_len(data: Seq<u8>)
    ensures
        hex_text(data).len() == 2 * data.len(),
    decreases data.len(),
{
    if data.len() > 0 {
        lemma_hex_text_len(data.drop_last());
    }
}

/// Whether `c` is a hexadecimal digit in lower case.
pub open spec fn is_lower_hex(c: char) -> bool {
    ('0' <= c && c <= '9') || ('a' <= c && c <= 'f')
}

/// Bytes in hexadecimal are written with digits and the letters `a` to `f`.
pub proof fn lemma_hex_text_chars(data: Seq<u8>)
    ensures
        forall|i: int| 0 <= i < hex_text(data).len() ==> is_lower_hex(#[trigger] hex_text(data)[i]),
    decreases data.len(),
{
    if data.len() > 0 {
        lemma_hex_text_chars(data.drop_last());
        lemma_hex_text_len(data.drop_last());
        let high = data.last() as int / 16;
        let low = data.last() as int % 16;
        assert(is_lower_hex(hex_digit_char(high)));
        assert(is_lower_hex(hex_digit_char(low)));
    }
}

/// The identifier that a digest gives: its first four characters in
/// hexadecimal, or all of them where it has fewer.
pub open spec fn id_of_digest(digest: Seq<u8>) -> Seq<char> {
    if digest.len() >= 2 {
        hex_text(digest).take(4)
    } else {
        hex_text(digest)
    }
}

/// The identifier of a module with the text `source`: the first four
/// characters of the SHA-512 digest of the text, in hexadecimal.
pub open spec fn module_id(source: Seq<char>) -> Seq<char> {
    id_of_digest(sha512(vstd::utf8::encode_utf8(source)))
}

/// Makes an identifier from a digest.
pub fn module_id_from_digest(digest: &[u8]) -> (id: String)
    ensures
        id@ == id_of_digest(digest@),
        digest@.len() >= 2 ==> id@.len() == 4,
        forall|i: int| 0 <= i < id@.len() ==> is_lower_hex(#[trigger] id@[i]),
{
    let hex_encoded = hex_encode(digest);
    proof {
        lemma_hex_text_len(digest@);
        lemma_hex_text_chars(digest@);
    }
    let chars = to_chars(hex_encoded.as_str());
    if digest.len() >= 2 {
        from_chars(&chars, 0, 4)
    } else {
        proof {
            assert(chars@.subrange(0, chars@.len() as int) =~= chars@);
        }
        from_chars(&chars, 0, chars.len())
    }
}

/// Makes the identifier of a module from its text: four hexadecimal digits
/// that depend on the text alone.
pub fn generate_module_id(source: &str) -> (id: String)
    requires
        source.spec_bytes().len() <= MAX_DIGEST_INPUT,
    ensures
        id@ == module_id(source@),
        sha512(vstd::utf8::encode_utf8(source@)).len() == 64,
        id@ == hex_text(sha512(vstd::utf8::encode_utf8(source@))).take(4),
        id@.len() == 4,
        forall|i: int| 0 <= i < id@.len() ==> is_lower_hex(#[trigger] id@[i]),
{
    let bytes = digest_sha512(source.as_bytes());
    module_id_from_digest(bytes.as_slice())
}

// ---------------------------------------------------------------------------
// Imports as calls of the loader
// ---------------------------------------------------------------------------

/// The call that loads the module with the identifier `id`.
pub open spec fn require_call_text(id: Seq<char>) -> Seq<char> {
    "_rpack_require"@ + "("@ + string_text(id) + ")"@
}

/// One name of a named import as a declarator: the local name, bound to the
/// member of the loaded module that has the imported name.
pub open spec fn named_binding_text(b: ImportBinding, id: Seq<char>) -> Seq<char> {
    b.local@ + " = "@ + (require_call_text(id) + "."@ + b.imported@)
}

/// The first `n` names of a named import as declarators, joined by commas.
pub open spec fn named_bindings_text(v: Seq<ImportBinding>, id: Seq<char>, n: int) -> Seq<char>
    decreases n,
{
    if n <= 0 || n > v.len() {
        Seq::empty()
    } else if n == 1 {
        named_binding_text(v[0], id)
    } else {
        named_bindings_text(v, id, n - 1) + ","@ + named_binding_text(v[n - 1], id)
    }
}

/// What stands for an import of the module with the identifier `id`: a
/// declaration that binds the local name to the loaded module, or, for named
/// imports, each local name to a member of it; the bare call where nothing
/// is imported by name.
pub open spec fn binding_text(specifier: ImportSpecifier, id: Seq<char>) -> Seq<char> {
    match specifier {
        ImportSpecifier::ImportDefault(local) => "var"@ + " "@ + (local@ + " = "@
            + require_call_text(id)),
        ImportSpecifier::ImportNamespaced(local) => "var"@ + " "@ + (local@ + " = "@
            + require_call_text(id)),
        ImportSpecifier::Import(bindings) => if bindings@.len() == 0 {
            require_call_text(id)
        } else {
            "var"@ + " "@ + named_bindings_text(bindings@, id, bindings@.len() as int)
        },
    }
}

/// Whether `e` is the call of the loader with the identifier `id` as its
/// one argument.
pub open spec fn is_require_call(e: Expression, id: Seq<char>) -> bool {
    match e {
        Expression::Call { callee, arguments } => {
            &&& *callee matches Expression::Id { id: f } && f@ == "_rpack_require"@
            &&& arguments@.len() == 1
            &&& arguments@[0] matches Expression::Literal { literal: Literal::StringLiteral(v) }
                && v@ == id
        },
        _ => false,
    }
}

/// Whether `d` binds the name `local` to the loaded module.
pub open spec fn binds_module(d: VariableDeclarator, local: Seq<char>, id: Seq<char>) -> bool {
    &&& d.id matches Pattern::Id { id: n } && n@ == local
    &&& d.init matches Some(e) && is_require_call(e, id)
}

/// Whether `d` binds the local name of `b` to the member of the loaded
/// module that has the imported name.
pub open spec fn binds_member(d: VariableDeclarator, b: ImportBinding, id: Seq<char>) -> bool {
    &&& d.id matches Pattern::Id { id: n } && n@ == b.local@
    &&& d.init matches Some(Expression::Member { object, property, computed }) && !computed
        && is_require_call(*object, id) && (*property matches Expression::Id { id: p } && p@
        == b.imported@)
}

/// Whether `s` is what stands for an import of the module with the
/// identifier `id`: a `var` declaration of the local name with the call of
/// the loader as its value; for named imports one declarator for each name,
/// with the member of the loaded module as its value, or the bare call
/// where nothing is imported by name.
pub open spec fn is_binding(s: Statement, specifier: ImportSpecifier, id: Seq<char>) -> bool {
    match specifier {
        ImportSpecifier::ImportDefault(local) => s matches Statement::VariableDeclaration {
            declaration,
        } && declaration.kind == VariableDeclarationKind::Var && declaration.declarations@.len()
            == 1 && binds_module(declaration.declarations@[0], local@, id),
        ImportSpecifier::ImportNamespaced(local) => s matches Statement::VariableDeclaration {
            declaration,
        } && declaration.kind == VariableDeclarationKind::Var && declaration.declarations@.len()
            == 1 && binds_module(declaration.declarations@[0], local@, id),
        ImportSpecifier::Import(bindings) => if bindings@.len() == 0 {
            s matches Statement::Expression { expression } && is_require_call(expression, id)
        } else {
            s matches Statement::VariableDeclaration { declaration } && declaration.kind
                == VariableDeclarationKind::Var && declaration.declarations@.len()
                == bindings@.len() && (forall|i: int|
                0 <= i < bindings@.len() ==> binds_member(
                    #[trigger] declaration.declarations@[i],
                    bindings@[i],
                    id,
                ))
        },
    }
}

/// Builds the call that loads the module with the identifier `id`.
fn require_call(id: &str) -> (e: Expression)
    ensures
        expression_text(e) == require_call_text(id@),
        precedence(e) == 16,
        stands_alone(e),
        is_require_call(e, id@),
{
    broadcast use {lemma_concat_assoc, lemma_concat_empty};

    let callee = Expression::Id { id: "_rpack_require".to_owned() };
    let argument = Expression::Literal { literal: Literal::StringLiteral(id.to_owned()) };
    let mut arguments: Vec<Expression> = Vec::new();
    arguments.push(argument);
    let e = Expression::Call { callee: Box::new(callee), arguments };
    proof {
        reveal_with_fuel(crate::javascript::syntax::expressions_text, 2);
        reveal_with_fuel(crate::javascript::syntax::expression_text, 2);
        reveal_with_fuel(crate::javascript::syntax::wrapped_text, 2);
        assert(wrapped_text(callee, 16) == "_rpack_require"@);
        assert(wrapped_text(argument, 2) == string_text(id@));
    }
    e
}

/// Builds the declarator that binds `local` to `value`.
fn declarator_for(local: &str, value: Expression) -> (d: VariableDeclarator)
    requires
        precedence(value) >= 2,
    ensures
        declarator_text(d) == local@ + " = "@ + expression_text(value),
        d.id matches Pattern::Id { id: n } && n@ == local@,
        d.init == Some(value),
{
    VariableDeclarator { id: Pattern::Id { id: local.to_owned() }, init: Some(value) }
}

/// Builds the declaration `var` with the given declarators.
fn var_statement(declarations: Vec<VariableDeclarator>) -> (s: Statement)
    ensures
        statement_text(s) == "var"@ + " "@ + declarators_text(
            declarations@,
            declarations@.len() as int,
        ),
        s matches Statement::VariableDeclaration { declaration } && declaration.kind
            == VariableDeclarationKind::Var && declaration.declarations == declarations,
{
    let declaration = VariableDeclaration { kind: VariableDeclarationKind::Var, declarations };
    proof {
        assert(crate::javascript::syntax::kind_text(declaration.kind) == "var"@);
        assert(crate::javascript::syntax::declaration_text(declaration) == "var"@ + " "@
            + declarators_text(declarations@, declarations@.len() as int));
    }
    Statement::VariableDeclaration { declaration }
}

/// Builds the statement that stands for an import of the module with the
/// identifier `id`.
pub fn require_binding(specifier: &ImportSpecifier, id: &str) -> (s: Statement)
    ensures
        is_binding(s, *specifier, id@),
        statement_text(s) == binding_text(*specifier, id@),
{
    match specifier {
        ImportSpecifier::ImportDefault(local) | ImportSpecifier::ImportNamespaced(local) => {
            let mut declarations: Vec<VariableDeclarator> = Vec::new();
            declarations.push(declarator_for(local.as_str(), require_call(id)));
            var_statement(declarations)
        },
        ImportSpecifier::Import(bindings) => {
            if bindings.len() == 0 {
                return Statement::Expression { expression: require_call(id) };
            }
            let mut declarations: Vec<VariableDeclarator> = Vec::new();
            let mut i: usize = 0;
            while i < bindings.len()
                invariant
                    i <= bindings@.len(),
                    declarations@.len() == i,
                    forall|k: int|
                        0 <= k < i ==> binds_member(
                            #[trigger] declarations@[k],
                            bindings@[k],
                            id@,
                        ),
                    declarators_text(declarations@, i as int) == named_bindings_text(
                        bindings@,
                        id@,
                        i as int,
                    ),
                decreases bindings@.len() - i,
            {
                let object = require_call(id);
                let property = Expression::Id { id: bindings[i].imported.clone() };
                let member = Expression::Member {
                    object: Box::new(object),
                    property: Box::new(property),
                    computed: false,
                };
                proof {
                    reveal_with_fuel(crate::javascript::syntax::expression_text, 2);
                    assert(expression_text(member) == require_call_text(id@) + "."@
                        + bindings@[i as int].imported@);
                }
                let ghost before = declarations@;
                declarations.push(declarator_for(bindings[i].local.as_str(), member));
                proof {
                    lemma_declarators_prefix(declarations@, before, i as int);
                }
                i += 1;
            }
            var_statement(declarations)
        },
    }
}

/// The text of the first `n` declarators does not depend on what follows
/// them.
proof fn lemma_declarators_prefix(a: Seq<VariableDeclarator>, b: Seq<VariableDeclarator>, n: int)
    requires
        0 <= n <= a.len(),
        n <= b.len(),
        forall|k: int| 0 <= k < n ==> a[k] == b[k],
    ensures
        declarators_text(a, n) == declarators_text(b, n),
    decreases n,
{
    if n > 1 {
        lemma_declarators_prefix(a, b, n - 1);
    }
}

// ---------------------------------------------------------------------------
// The table of identifiers
// ---------------------------------------------------------------------------

/// The identifier of the module with a given path.
#[derive(Debug, Clone, PartialEq)]
pub struct ModuleId {
    pub path: String,
    pub id: String,
}

/// A table of identifiers: paths, each with the identifier of its module.
pub type Table = Seq<(Seq<char>, Seq<char>)>;

/// The table that a list of identifiers holds.
pub open spec fn table_of(ids: Seq<ModuleId>) -> Table {
    Seq::new(ids.len(), |k: int| (ids[k].path@, ids[k].id@))
}

/// The identifier that the table has for `path`: that of the first entry at
/// or after place `from` with that path.
pub open spec fn id_of_path(table: Table, path: Seq<char>, from: int) -> Option<Seq<char>>
    decreases table.len() - from,
{
    if from < 0 || from >= table.len() {
        None
    } else if table[from].0 == path {
        Some(table[from].1)
    } else {
        id_of_path(table, path, from + 1)
    }
}

/// Looks up the identifier of the module with the path `path`.
fn lookup_id<'a>(ids: &'a Vec<ModuleId>, path: &str) -> (r: Option<&'a String>)
    ensures
        match r {
            Some(id) => id_of_path(table_of(ids@), path@, 0) == Some(id@),
            None => id_of_path(table_of(ids@), path@, 0) is None,
        },
{
    let mut i: usize = 0;
    while i < ids.len()
        invariant
            i <= ids@.len(),
            id_of_path(table_of(ids@), path@, 0) == id_of_path(table_of(ids@), path@, i as int),
        decreases ids@.len() - i,
    {
        if equal(ids[i].path.as_str(), path) {
            return Some(&ids[i].id);
        }
        i += 1;
    }
    None
}

/// What stands in the bundle for a statement of a module: for an import the
/// binding to the module that it names, which must be in the table; for any
/// other statement the statement itself.
pub open spec fn rewritten_text(s: Statement, table: Table) -> Result<Seq<char>, Failure> {
    match s {
        Statement::Import(specifier, source) => match id_of_path(table, source@, 0) {
            Some(id) => Ok(binding_text(specifier, id)),
            None => Err(Failure::MissingModule(source@)),
        },
        _ => Ok(statement_text(s)),
    }
}

/// Replaces an import by the binding to the module that it names, and
/// leaves any other statement as it is.
pub fn map_statements(path_to_module_id: &Vec<ModuleId>, statement: Statement) -> (r: Result<
    Statement,
    BuildError,
>)
    ensures
        match r {
            Ok(s) => rewritten_text(statement, table_of(path_to_module_id@)) == Ok::<
                Seq<char>,
                Failure,
            >(statement_text(s)) && (!(statement is Import) ==> s == statement) && (
            statement matches Statement::Import(specifier, source) ==> is_binding(
                s,
                specifier,
                id_of_path(table_of(path_to_module_id@), source@, 0)->Some_0,
            )),
            Err(e) => rewritten_text(statement, table_of(path_to_module_id@)) == Err::<
                Seq<char>,
                Failure,
            >(e@),
        },
{
    match statement {
        Statement::Import(specifier, source) => {
            match lookup_id(path_to_module_id, source.as_str()) {
                Some(id) => Ok(require_binding(&specifier, id.as_str())),
                None => Err(BuildError::MissingModule(source)),
            }
        },
        other => Ok(other),
    }
}

// ---------------------------------------------------------------------------
// The bundle
// ---------------------------------------------------------------------------

/// The runtime that every bundle begins with: the function that keeps the
/// loaded modules and loads a module when it is first asked for.
pub const BOOTSTRAP: &'static str =
    "function _rpack_bootstrap(modules, entry) {\n  var cache = {};\n  function _rpack_require(id) {\n    if (cache[id]) {\n      return cache[id].exports;\n    }\n    var module = { exports: {} };\n    cache[id] = module;\n    modules[id](module, module.exports, _rpack_require);\n    return module.exports;\n  }\n  return _rpack_require(entry);\n}\n";

/// The table of the modules of `order`: the path of each with the
/// identifier made from its text.
pub open spec fn id_table(modules: Seq<JsModule>, order: Seq<usize>) -> Table {
    Seq::new(
        order.len(),
        |k: int| (modules[order[k] as int].path@, module_id(modules[order[k] as int].source@)),
    )
}

/// What stands in the bundle for the first `n` statements of a module,
/// joined by semicolons; the error of the first import that names a module
/// without an identifier.
pub open spec fn body_text(body: Seq<Statement>, table: Table, n: int) -> Result<Seq<char>, Failure>
    decreases n,
{
    if n <= 0 || n > body.len() {
        Ok(Seq::empty())
    } else {
        match body_text(body, table, n - 1) {
            Err(e) => Err(e),
            Ok(before) => match rewritten_text(body[n - 1], table) {
                Err(e) => Err(e),
                Ok(t) => Ok(
                    if n == 1 {
                        t
                    } else {
                        before + ";"@ + t
                    },
                ),
            },
        }
    }
}

/// The entry of a module in the table of the bundle: its identifier as a
/// string, and a function of the module record, its exports and the loader,
/// whose body is the module's statements.
pub open spec fn module_entry_text(m: JsModule, table: Table) -> Result<Seq<char>, Failure> {
    match body_text(m.program.body@, table, m.program.body@.len() as int) {
        Err(e) => Err(e),
        Ok(body) => Ok(
            string_text(module_id(m.source@)) + ":function(module,exports,_rpack_require){"@ + body
                + "}"@,
        ),
    }
}

/// The entries of the first `n` modules of `order`, joined by commas.
pub open spec fn entries_text(modules: Seq<JsModule>, order: Seq<usize>, table: Table, n: int)
    -> Result<Seq<char>, Failure>
    decreases n,
{
    if n <= 0 || n > order.len() {
        Ok(Seq::empty())
    } else {
        match entries_text(modules, order, table, n - 1) {
            Err(e) => Err(e),
            Ok(before) => match module_entry_text(modules[order[n - 1] as int], table) {
                Err(e) => Err(e),
                Ok(t) => Ok(
                    if n == 1 {
                        t
                    } else {
                        before + ","@ + t
                    },
                ),
            },
        }
    }
}

/// Whether one of the first `n` modules of `order` has a text too long for
/// the digest.
pub open spec fn any_oversized(modules: Seq<JsModule>, order: Seq<usize>, n: int) -> bool {
    exists|k: int|
        0 <= k < n && k < order.len() && vstd::utf8::encode_utf8(
            (#[trigger] modules[order[k] as int]).source@,
        ).len() > MAX_DIGEST_INPUT
}

/// The bundle of a graph whose entry point is the node at `entry`: that of
/// the modules that a walk from there reaches, in the order of the walk.
/// The graph must have a node for each module and a module at `entry`.
pub open spec fn bundle_of(graph: DependencyGraph, entry: usize) -> Result<Seq<char>, Failure> {
    if graph_nodes(graph.graph).len() != graph.modules@.len() || entry >= graph.modules@.len() {
        Err(Failure::NoEntry)
    } else {
        bundle_text(graph.modules@, walk_order(graph.graph, entry), entry as int)
    }
}

/// Whether every number of `order` is below `n`.
pub open spec fn fits(order: Seq<usize>, n: nat) -> bool {
    forall|i: int| 0 <= i < order.len() ==> (#[trigger] order[i]) < n
}

/// The bundle of the modules at the places that `order` gives, in that
/// order, of which the module at `entry` is to run. Every place must hold a
/// module.
pub open spec fn bundle_in_order(graph: DependencyGraph, entry: usize, order: Seq<usize>) -> Result<
    Seq<char>,
    Failure,
> {
    if entry >= graph.modules@.len() || !fits(order, graph.modules@.len()) {
        Err(Failure::NoEntry)
    } else {
        bundle_text(graph.modules@, order, entry as int)
    }
}

/// The bundle of the modules of `order`, of which the module at `entry` is
/// to run: the runtime, the table of the modules, and the call that starts
/// the entry module.
pub open spec fn bundle_text(modules: Seq<JsModule>, order: Seq<usize>, entry: int) -> Result<
    Seq<char>,
    Failure,
> {
    if any_oversized(modules, order, order.len() as int) || vstd::utf8::encode_utf8(
        modules[entry].source@,
    ).len() > MAX_DIGEST_INPUT {
        Err(Failure::TooLarge)
    } else {
        match entries_text(modules, order, id_table(modules, order), order.len() as int) {
            Err(e) => Err(e),
            Ok(entries) => Ok(
                BOOTSTRAP@ + "var modules = {"@ + entries + "};_rpack_bootstrap(modules,"@
                    + string_text(module_id(modules[entry].source@)) + ")"@,
            ),
        }
    }
}

/// The call that ends a bundle: it starts the module with the text `source`.
pub open spec fn start_text(source: Seq<char>) -> Seq<char> {
    "};_rpack_bootstrap(modules,"@ + string_text(module_id(source)) + ")"@
}

/// A bundle begins with the runtime, before the table of the modules, and
/// ends with the call that starts the entry module by its identifier.
pub proof fn lemma_bundle_begins_and_ends(modules: Seq<JsModule>, order: Seq<usize>, entry: int)
    requires
        bundle_text(modules, order, entry) is Ok,
    ensures
        has_text(bundle_text(modules, order, entry)->Ok_0, 0, BOOTSTRAP@ + "var modules = {"@),
        has_text(
            bundle_text(modules, order, entry)->Ok_0,
            bundle_text(modules, order, entry)->Ok_0.len() - start_text(
                modules[entry].source@,
            ).len(),
            start_text(modules[entry].source@),
        ),
{
    let text = bundle_text(modules, order, entry)->Ok_0;
    let entries = entries_text(modules, order, id_table(modules, order), order.len() as int)->Ok_0;
    let head = BOOTSTRAP@ + "var modules = {"@;
    let tail = start_text(modules[entry].source@);
    assert(text =~= head + entries + tail);
    assert(text.subrange(0, head.len() as int) =~= head);
    assert(text.subrange(text.len() - tail.len(), text.len() as int) =~= tail);
}

/// An error among the first statements is the error of the whole body.
proof fn lemma_body_error_stays(body: Seq<Statement>, table: Table, at: int, n: int)
    requires
        0 <= at <= n <= body.len(),
        body_text(body, table, at) is Err,
    ensures
        body_text(body, table, n) == body_text(body, table, at),
    decreases n - at,
{
    if at < n {
        lemma_body_error_stays(body, table, at, n - 1);
    }
}

/// An error among the first entries is the error of all the entries.
proof fn lemma_entries_error_stays(
    modules: Seq<JsModule>,
    order: Seq<usize>,
    table: Table,
    at: int,
    n: int,
)
    requires
        0 <= at <= n <= order.len(),
        entries_text(modules, order, table, at) is Err,
    ensures
        entries_text(modules, order, table, n) == entries_text(modules, order, table, at),
    decreases n - at,
{
    if at < n {
        lemma_entries_error_stays(modules, order, table, at, n - 1);
    }
}

/// Writes what stands in the bundle for the statements of a module.
fn write_body(body: &Vec<Statement>, ids: &Vec<ModuleId>, out: &mut Vec<char>) -> (r: Result<
    (),
    BuildError,
>)
    ensures
        match r {
            Ok(_) => body_text(body@, table_of(ids@), body@.len() as int) is Ok && final(out)@
                == old(out)@ + body_text(body@, table_of(ids@), body@.len() as int)->Ok_0,
            Err(e) => body_text(body@, table_of(ids@), body@.len() as int) == Err::<
                Seq<char>,
                Failure,
            >(e@),
        },
{
    broadcast use {lemma_concat_assoc, lemma_concat_empty};

    let ghost base = out@;
    let ghost table = table_of(ids@);
    let mut i: usize = 0;
    while i < body.len()
        invariant
            i <= body@.len(),
            table == table_of(ids@),
            body_text(body@, table, i as int) is Ok,
            out@ == base + body_text(body@, table, i as int)->Ok_0,
        decreases body@.len() - i,
    {
        match &body[i] {
            Statement::Import(specifier, source) => {
                match lookup_id(ids, source.as_str()) {
                    Some(id) => {
                        let binding = require_binding(specifier, id.as_str());
                        if i > 0 {
                            append_str(out, ";");
                        }
                        write_statement(&binding, out);
                    },
                    None => {
                        proof {
                            lemma_body_error_stays(body@, table, i + 1, body@.len() as int);
                        }
                        return Err(BuildError::MissingModule(source.clone()));
                    },
                }
            },
            other => {
                if i > 0 {
                    append_str(out, ";");
                }
                write_statement(other, out);
            },
        }
        i += 1;
    }
    Ok(())
}

/// Writes the entry of a module in the table of the bundle.
fn write_module_entry(m: &JsModule, id: &str, ids: &Vec<ModuleId>, out: &mut Vec<char>) -> (r:
    Result<(), BuildError>)
    requires
        id@ == module_id(m.source@),
    ensures
        match r {
            Ok(_) => module_entry_text(*m, table_of(ids@)) is Ok && final(out)@ == old(out)@
                + module_entry_text(*m, table_of(ids@))->Ok_0,
            Err(e) => module_entry_text(*m, table_of(ids@)) == Err::<Seq<char>, Failure>(e@),
        },
{
    broadcast use {lemma_concat_assoc, lemma_concat_empty};

    write_string(id, out);
    append_str(out, ":function(module,exports,_rpack_require){");
    match write_body(&m.program.body, ids, out) {
        Ok(_) => {},
        Err(e) => {
            return Err(e);
        },
    }
    append_str(out, "}");
    Ok(())
}

/// A table has an identifier for every path that stands in it.
proof fn lemma_table_has_path(table: Table, at: int, from: int)
    requires
        0 <= from <= at < table.len(),
    ensures
        id_of_path(table, table[at].0, from) is Some,
    decreases at - from,
{
    if table[from].0 != table[at].0 {
        lemma_table_has_path(table, at, from + 1);
    }
}

/// Where the table has an identifier for what every import names, the body
/// of a module can be written.
proof fn lemma_body_can_be_written(body: Seq<Statement>, table: Table, n: int)
    requires
        0 <= n <= body.len(),
        forall|k: int|
            0 <= k < body.len() ==> match #[trigger] body[k] {
                Statement::Import(_, source) => id_of_path(table, source@, 0) is Some,
                _ => true,
            },
    ensures
        body_text(body, table, n) is Ok,
    decreases n,
{
    if n > 0 {
        lemma_body_can_be_written(body, table, n - 1);
        assert(rewritten_text(body[n - 1], table) is Ok);
    }
}

/// In a graph that holds the module of every import, a walk that follows
/// the edges reaches an identifier for every import of every module it
/// reaches: the entries of the bundle can be written.
pub proof fn lemma_closed_graph_can_be_written(graph: DependencyGraph, order: Seq<usize>, n: int)
    requires
        graph.wf(),
        forall|i: int| 0 <= i < graph.modules@.len() ==> graph.closed(i),
        follows_edges(order, graph_edges(graph.graph)),
        forall|k: int| 0 <= k < order.len() ==> (#[trigger] order[k]) < graph.modules@.len(),
        0 <= n <= order.len(),
    ensures
        entries_text(graph.modules@, order, id_table(graph.modules@, order), n) is Ok,
    decreases n,
{
    if n > 0 {
        lemma_closed_graph_can_be_written(graph, order, n - 1);
        let table = id_table(graph.modules@, order);
        let place = order[n - 1] as int;
        let m = graph.modules@[place];
        assert(graph.closed(place));
        assert forall|k: int| 0 <= k < m.program.body@.len() implies match #[trigger] m.program.body@[k] {
            Statement::Import(_, source) => id_of_path(table, source@, 0) is Some,
            _ => true,
        } by {
            match m.program.body@[k] {
                Statement::Import(_, source) => {
                    assert(graph.imports(place, source@));
                    let to = choose|to: int|
                        0 <= to < graph.modules@.len() && (#[trigger] graph.modules@[to]).path@
                            == source@ && graph.has_edge(place, to);
                    let e = choose|e: int|
                        0 <= e < graph_edges(graph.graph).len() && (#[trigger] graph_edges(
                            graph.graph,
                        )[e]).0 == place && graph_edges(graph.graph)[e].1 == to;
                    assert(order.contains(graph_edges(graph.graph)[e].0)) by {
                        assert(order[n - 1] == graph_edges(graph.graph)[e].0);
                    }
                    assert(order.contains(graph_edges(graph.graph)[e].1));
                    let at = choose|at: int|
                        0 <= at < order.len() && order[at] == graph_edges(graph.graph)[e].1;
                    assert(table[at].0 == source@);
                    lemma_table_has_path(table, at, 0);
                },
                _ => {},
            }
        }
        lemma_body_can_be_written(m.program.body@, table, m.program.body@.len() as int);
    }
}

/// A walk from the first module of a graph in which imports lead from that
/// module to every module, and which holds with every module the modules of
/// its imports, holds every module once: the bundle of such a graph has one
/// entry for each of its modules.
pub proof fn lemma_walk_holds_every_module(
    graph: DependencyGraph,
    roots: Seq<String>,
    fs: FileSystem,
    order: Seq<usize>,
)
    requires
        graph.wf(),
        graph.loaded_from(roots, fs),
        forall|i: int| 0 <= i < graph.modules@.len() ==> graph.closed(i),
        0 < graph.modules@.len() <= usize::MAX,
        forall|i: int|
            0 <= i < graph.modules@.len() ==> reachable(
                roots,
                fs,
                graph.modules@[0].path@,
                (#[trigger] graph.modules@[i]).path@,
            ),
        is_walk(order, graph_edges(graph.graph), 0, graph.modules@.len() as nat),
    ensures
        order.len() == graph.modules@.len(),
        forall|i: usize| i < graph.modules@.len() ==> order.contains(i),
{
    let n = graph.modules@.len() as int;
    assert(order.contains(0usize)) by {
        assert(order[0] == 0usize);
    }
    assert forall|i: usize| i < n implies order.contains(i) by {
        let to = graph.modules@[i as int].path@;
        assert(reachable(roots, fs, graph.modules@[0].path@, to));
        let steps = choose|steps: nat|
            #[trigger] reaches(roots, fs, graph.modules@[0].path@, to, steps);
        let j = lemma_order_holds_reached_modules(graph, roots, fs, order, 0, to, steps);
        lemma_one_node_per_path(graph, i as int, j);
    }
    lemma_walk_fits(order, graph_edges(graph.graph), 0, n as nat);
    let f = |i: int| order.index_of(i as usize);
    let x = set_int_range(0, n);
    let y = x.map(f);
    lemma_int_range(0, n);
    lemma_int_range(0, order.len() as int);
    assert forall|i: int| 0 <= i < n implies 0 <= #[trigger] f(i) < order.len() && order[f(i)]
        == i by {
        assert(order.contains(i as usize));
    }
    assert(vstd::relations::injective_on(f, x)) by {
        assert forall|a: int, b: int| x.contains(a) && x.contains(b) && #[trigger] f(a)
            == #[trigger] f(b) implies a == b by {
            assert(order[f(a)] == a);
            assert(order[f(b)] == b);
        }
    }
    lemma_map_size(x, y, f);
    assert(y.subset_of(set_int_range(0, order.len() as int))) by {
        assert forall|k: int| y.contains(k) implies set_int_range(0, order.len() as int).contains(
            k,
        ) by {
            let i = choose|i: int| x.contains(i) && f(i) == k;
            assert(0 <= f(i) < order.len());
        }
    }
    lemma_len_subset(y, set_int_range(0, order.len() as int));
}

/// Walks through the graph from the node at `start` and gives the nodes in
/// the order in which the walk hands them out.
fn walk_all(graph: &DependencyGraph, start: usize) -> (order: Vec<usize>)
    requires
        graph_nodes(graph.graph).len() == graph.modules@.len(),
        start < graph.modules@.len(),
    ensures
        order@ == walk_order(graph.graph, start),
        is_walk(order@, graph_edges(graph.graph), start, graph.modules@.len() as nat),
{
    let mut walk = walk_new(&graph.graph, start);
    let ghost full = walk_order(graph.graph, start);
    let mut order: Vec<usize> = Vec::new();
    proof {
        assert(order@ + walk_rest(walk, graph.graph) =~= full);
    }
    loop
        invariant_except_break
            order@ + walk_rest(walk, graph.graph) == full,
        invariant
            graph_nodes(graph.graph).len() == graph.modules@.len(),
            crate::graph::walk_size(walk) == graph.modules@.len(),
        ensures
            order@ == full,
        decreases walk_rest(walk, graph.graph).len(),
    {
        let ghost rest = walk_rest(walk, graph.graph);
        match walk_next(&mut walk, &graph.graph) {
            Some(node) => {
                proof {
                    assert(order@.push(node) + rest.drop_first() =~= order@ + rest);
                }
                order.push(node);
            },
            None => {
                proof {
                    assert(order@ + rest =~= order@);
                }
                break ;
            },
        }
    }
    order
}

/// Makes the table of identifiers of the modules of `order`.
fn make_table(graph: &DependencyGraph, order: &Vec<usize>) -> (r: Result<Vec<ModuleId>, BuildError>)
    requires
        forall|i: int| 0 <= i < order@.len() ==> (#[trigger] order@[i]) < graph.modules@.len(),
    ensures
        match r {
            Ok(ids) => table_of(ids@) == id_table(graph.modules@, order@) && !any_oversized(
                graph.modules@,
                order@,
                order@.len() as int,
            ),
            Err(e) => e@ == Failure::TooLarge && any_oversized(
                graph.modules@,
                order@,
                order@.len() as int,
            ),
        },
{
    let ghost modules = graph.modules@;
    let mut ids: Vec<ModuleId> = Vec::new();
    let mut k: usize = 0;
    proof {
        assert(table_of(ids@) =~= id_table(modules, order@).take(0));
    }
    while k < order.len()
        invariant
            k <= order@.len(),
            modules == graph.modules@,
            forall|i: int| 0 <= i < order@.len() ==> (#[trigger] order@[i]) < modules.len(),
            ids@.len() == k,
            table_of(ids@) == id_table(modules, order@).take(k as int),
            !any_oversized(modules, order@, k as int),
        decreases order@.len() - k,
    {
        let m = &graph.modules[order[k]];
        let bytes = m.source.as_str().as_bytes();
        if bytes.len() as u64 > MAX_DIGEST_INPUT {
            proof {
                assert(vstd::utf8::encode_utf8(modules[order@[k as int] as int].source@).len()
                    > MAX_DIGEST_INPUT);
            }
            return Err(BuildError::TooLarge);
        }
        let entry = ModuleId { path: m.path.clone(), id: generate_module_id(m.source.as_str()) };
        proof {
            let grown = table_of(ids@.push(entry));
            let wanted = id_table(modules, order@).take(k + 1);
            assert(entry.path@ == modules[order@[k as int] as int].path@);
            assert(entry.id@ == module_id(modules[order@[k as int] as int].source@));
            assert(grown.len() == wanted.len());
            assert forall|i: int| 0 <= i < grown.len() implies grown[i] == wanted[i] by {
                if i < k {
                    assert(table_of(ids@)[i] == id_table(modules, order@).take(k as int)[i]);
                }
            }
            assert(grown =~= wanted);
            assert forall|i: int|
                0 <= i < k + 1 && i < order@.len() implies vstd::utf8::encode_utf8(
                (#[trigger] modules[order@[i] as int]).source@,
            ).len() <= MAX_DIGEST_INPUT by {
                if i < k {
                    assert(!any_oversized(modules, order@, k as int));
                }
            }
        }
        ids.push(entry);
        k += 1;
    }
    proof {
        assert(id_table(modules, order@).take(order@.len() as int) =~= id_table(modules, order@));
    }
    Ok(ids)
}

/// Writes the entries of the modules of `order`, joined by commas.
fn write_entries(graph: &DependencyGraph, order: &Vec<usize>, ids: &Vec<ModuleId>, out: &mut Vec<char>)
    -> (r: Result<(), BuildError>)
    requires
        forall|i: int| 0 <= i < order@.len() ==> (#[trigger] order@[i]) < graph.modules@.len(),
        table_of(ids@) == id_table(graph.modules@, order@),
    ensures
        match r {
            Ok(_) => entries_text(
                graph.modules@,
                order@,
                table_of(ids@),
                order@.len() as int,
            ) is Ok && final(out)@ == old(out)@ + entries_text(
                graph.modules@,
                order@,
                table_of(ids@),
                order@.len() as int,
            )->Ok_0,
            Err(e) => entries_text(graph.modules@, order@, table_of(ids@), order@.len() as int)
                == Err::<Seq<char>, Failure>(e@),
        },
{
    broadcast use {lemma_concat_assoc, lemma_concat_empty};

    let ghost modules = graph.modules@;
    let ghost table = table_of(ids@);
    let ghost base = out@;
    let mut j: usize = 0;
    while j < order.len()
        invariant
            j <= order@.len(),
            modules == graph.modules@,
            forall|i: int| 0 <= i < order@.len() ==> (#[trigger] order@[i]) < modules.len(),
            table == table_of(ids@),
            table == id_table(modules, order@),
            ids@.len() == order@.len(),
            entries_text(modules, order@, table, j as int) is Ok,
            out@ == base + entries_text(modules, order@, table, j as int)->Ok_0,
        decreases order@.len() - j,
    {
        if j > 0 {
            append_str(out, ",");
        }
        assert(table[j as int].1 == ids@[j as int].id@);
        match write_module_entry(&graph.modules[order[j]], ids[j].id.as_str(), ids, out) {
            Ok(_) => {},
            Err(e) => {
                proof {
                    lemma_entries_error_stays(modules, order@, table, j + 1, order@.len() as int);
                }
                return Err(e);
            },
        }
        j += 1;
    }
    Ok(())
}

/// Writes the bundle of the modules at the places that `order` gives, in
/// that order: the runtime, the table with an entry for each of them, and
/// the call that starts the module at `entry`.
///
/// Each module is a function of the module record, its exports and the
/// loader, under an identifier made from the module's text. In the body
/// every import is a binding to a call of the loader with the identifier of
/// the module that the import names; an import of a module that is not
/// among those of `order` is an error.
pub fn bundle(graph: &DependencyGraph, entry: usize, order: &Vec<usize>) -> (r: Result<
    String,
    BuildError,
>)
    ensures
        match r {
            Ok(text) => bundle_in_order(*graph, entry, order@) == Ok::<Seq<char>, Failure>(text@),
            Err(e) => bundle_in_order(*graph, entry, order@) == Err::<Seq<char>, Failure>(e@),
        },
{
    if entry >= graph.modules.len() {
        return Err(BuildError::NoEntry);
    }
    let mut k: usize = 0;
    while k < order.len()
        invariant
            k <= order@.len(),
            forall|i: int| 0 <= i < k ==> (#[trigger] order@[i]) < graph.modules@.len(),
        decreases order@.len() - k,
    {
        if order[k] >= graph.modules.len() {
            return Err(BuildError::NoEntry);
        }
        k += 1;
    }
    let ids = match make_table(graph, order) {
        Ok(ids) => ids,
        Err(e) => {
            return Err(e);
        },
    };
    let first = &graph.modules[entry];
    if first.source.as_str().as_bytes().len() as u64 > MAX_DIGEST_INPUT {
        return Err(BuildError::TooLarge);
    }
    let entry_id = generate_module_id(first.source.as_str());
    let mut out: Vec<char> = Vec::new();
    append_str(&mut out, BOOTSTRAP);
    append_str(&mut out, "var modules = {");
    match write_entries(graph, order, &ids, &mut out) {
        Ok(_) => {},
        Err(e) => {
            return Err(e);
        },
    }
    append_str(&mut out, "};_rpack_bootstrap(modules,");
    write_string(entry_id.as_str(), &mut out);
    append_str(&mut out, ")");
    proof {
        broadcast use {lemma_concat_assoc, lemma_concat_empty};

        assert(out@.subrange(0, out@.len() as int) =~= out@);
    }
    Ok(from_chars(&out, 0, out.len()))
}

/// Writes the bundle for a graph: that of the modules that a walk from the
/// entry module reaches, in the order of the walk. The walk hands out the
/// entry module first, then the modules that edges lead to from it and no
/// other, and no module twice.
pub fn codegen(graph: &DependencyGraph, entry_point_id: usize) -> (r: Result<String, BuildError>)
    ensures
        match r {
            Ok(text) => bundle_of(*graph, entry_point_id) == Ok::<Seq<char>, Failure>(text@)
                && is_walk(
                walk_order(graph.graph, entry_point_id),
                graph_edges(graph.graph),
                entry_point_id,
                graph.modules@.len() as nat,
            ),
            Err(e) => bundle_of(*graph, entry_point_id) == Err::<Seq<char>, Failure>(e@),
        },
        graph.wf() && entry_point_id < graph.modules@.len() && (forall|i: int|
            0 <= i < graph.modules@.len() ==> graph.closed(i)) ==> r is Ok || r == Err::<
            String,
            BuildError,
        >(BuildError::TooLarge),
{
    if node_count(&graph.graph) != graph.modules.len() || entry_point_id >= graph.modules.len() {
        return Err(BuildError::NoEntry);
    }
    let order = walk_all(graph, entry_point_id);
    proof {
        if graph.wf() && forall|i: int| 0 <= i < graph.modules@.len() ==> graph.closed(i) {
            lemma_closed_graph_can_be_written(*graph, order@, order@.len() as int);
        }
        if any_oversized(graph.modules@, order@, order@.len() as int) {
        } else {
            assert(graph.modules@[order@[0] as int] == graph.modules@[entry_point_id as int]);
        }
    }
    bundle(graph, entry_point_id, &order)
}

} // verus!
