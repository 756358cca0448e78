//! JavaScript files as modules of any kind: a script depends on the modules
//! that it imports and on those that it binds with `require`.

use vstd::prelude::*;
use crate::context::{texts, Context};
use crate::error::{BuildError, Failure};
use crate::io_utils::{file_at, FileSystem};
use crate::javascript::ast::{Expression, Literal, Program, Statement, VariableDeclarationKind};
use crate::javascript::statements::{describes, describes_all, is_require, program, Item};
use crate::modules::{module_type_of, Module};
use crate::parser::html::{resolve_references, resolved_references};
use crate::paths::{set_js_extension, with_extension_js};

verus! {

/// What the first `n` items refer to, in order: an import to what it names,
/// a constant whose value is a call of `require` to the path of the call
/// with the extension `js`.
pub open spec fn script_references(items: Seq<Item>, n: int) -> Seq<Seq<char>>
    decreases n,
{
    if n <= 0 || n > items.len() {
        Seq::empty()
    } else {
        match items[n - 1] {
            Item::Import { what, source } => script_references(items, n - 1).push(source),
            Item::Variable { kind, name, value } => if kind == VariableDeclarationKind::Const
                && value is Some {
                script_references(items, n - 1).push(with_extension_js(value->Some_0))
            } else {
                script_references(items, n - 1)
            },
            _ => script_references(items, n - 1),
        }
    }
}

/// What a script at `path` is: the module that the file holds, and the
/// canonical paths that its references lead to, in order. The text must be
/// a module of the grammar.
pub open spec fn javascript_module(roots: Seq<String>, fs: FileSystem, path: Seq<char>) -> Result<
    ((Seq<char>, Seq<char>), Seq<Seq<char>>),
    Failure,
> {
    match file_at(fs, path) {
        Err(e) => Err(e),
        Ok((canonical, content)) => match program(content) {
            Err(e) => Err(Failure::Syntax(path, e)),
            Ok(items) => match resolved_references(
                roots,
                fs,
                canonical,
                script_references(items, items.len() as int),
                0,
            ) {
                Err(e) => Err(e),
                Ok(targets) => Ok(((canonical, content), targets)),
            },
        },
    }
}

/// The path that a call of `require` names, where the expression is one.
fn required_path(e: &Expression) -> (r: Option<&String>)
    ensures
        match r {
            Some(v) => is_require(*e, v@),
            None => forall|path: Seq<char>| !is_require(*e, path),
        },
{
    match e {
        Expression::Call { callee, arguments } => {
            let named = match &**callee {
                Expression::Id { id } => crate::text::equal(id.as_str(), "require"),
                _ => false,
            };
            if named && arguments.len() == 1 {
                match &arguments[0] {
                    Expression::Literal { literal: Literal::StringLiteral(v) } => Some(v),
                    _ => None,
                }
            } else {
                None
            }
        },
        _ => None,
    }
}

/// Gathers what the statements of a script refer to.
pub(crate) fn references_of(tree: &Program, Ghost(items): Ghost<Seq<Item>>) -> (found: Vec<String>)
    requires
        describes_all(items, tree.body@),
    ensures
        texts(found@) == script_references(items, items.len() as int),
{
    let mut found: Vec<String> = Vec::new();
    let mut i: usize = 0;
    proof {
        assert(texts(found@) =~= script_references(items, 0));
    }
    while i < tree.body.len()
        invariant
            i <= tree.body@.len(),
            describes_all(items, tree.body@),
            texts(found@) == script_references(items, i as int),
        decreases tree.body@.len() - i,
    {
        assert(describes(items[i as int], tree.body@[i as int]));
        let reference: Option<String> = match &tree.body[i] {
            Statement::Import(_, source) => Some(source.clone()),
            Statement::VariableDeclaration { declaration } => {
                if declaration.kind == VariableDeclarationKind::Const
                    && declaration.declarations.len() == 1 {
                    match &declaration.declarations[0].init {
                        Some(e) => match required_path(e) {
                            Some(v) => Some(set_js_extension(v.as_str())),
                            None => None,
                        },
                        None => None,
                    }
                } else {
                    None
                }
            },
            _ => None,
        };
        match reference {
            Some(text) => {
                proof {
                    assert(texts(found@.push(text)) =~= texts(found@).push(text@));
                }
                found.push(text);
            },
            None => {},
        }
        i += 1;
    }
    found
}

/// Reads the script at `input_path` and resolves what it refers to, each
/// reference from where the script stands.
pub fn parse_javascript_module(context: &Context, fs: &FileSystem, input_path: &str) -> (r: Result<
    (Module, Vec<String>),
    BuildError,
>)
    ensures
        match r {
            Ok((module, dependencies)) => javascript_module(
                context.resolve_paths@,
                *fs,
                input_path@,
            ) == Ok::<((Seq<char>, Seq<char>), Seq<Seq<char>>), Failure>(
                ((module.path@, module.content@), texts(dependencies@)),
            ) && module.mtype == module_type_of(module.path@),
            Err(e) => javascript_module(context.resolve_paths@, *fs, input_path@) == Err::<
                ((Seq<char>, Seq<char>), Seq<Seq<char>>),
                Failure,
            >(e@),
        },
{
    let module = match Module::from_path(fs, input_path) {
        Ok(module) => module,
        Err(e) => {
            return Err(e);
        },
    };
    let tree = match crate::javascript::parser::parse(module.content.as_str()) {
        Ok(tree) => tree,
        Err(e) => {
            return Err(BuildError::Syntax(input_path.to_owned(), e));
        },
    };
    let references = references_of(&tree, Ghost(program(module.content@)->Ok_0));
    match resolve_references(context, fs, module.path.as_str(), &references) {
        Ok(dependencies) => Ok((module, dependencies)),
        Err(e) => Err(e),
    }
}

} // verus!
