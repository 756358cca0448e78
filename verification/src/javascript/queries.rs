//! Questions about a module.

use vstd::prelude::*;
use crate::context::Context;
use crate::javascript::ast::Statement;
use crate::javascript::JsModule;

verus! {

/// What the imports among the first `n` statements name, in order. Only the
/// statements of the module itself count, not those inside functions.
pub open spec fn import_sources(body: Seq<Statement>, n: int) -> Seq<Seq<char>>
    decreases n,
{
    if n <= 0 || n > body.len() {
        Seq::empty()
    } else {
        match body[n - 1] {
            Statement::Import(_, source) => import_sources(body, n - 1).push(source@),
            _ => import_sources(body, n - 1),
        }
    }
}

/// The specifiers that the module imports from, in the order of its import
/// statements.
pub fn get_dependencies(_context: &Context, module: &JsModule) -> (deps: Vec<String>)
    ensures
        crate::context::texts(deps@) == import_sources(
            module.program.body@,
            module.program.body@.len() as int,
        ),
{
    let mut deps: Vec<String> = Vec::new();
    let mut i: usize = 0;
    proof {
        assert(crate::context::texts(deps@) =~= Seq::<Seq<char>>::empty());
    }
    while i < module.program.body.len()
        invariant
            i <= module.program.body@.len(),
            crate::context::texts(deps@) == import_sources(module.program.body@, i as int),
        decreases module.program.body@.len() - i,
    {
        match &module.program.body[i] {
            Statement::Import(_, source) => {
                let copy = source.clone();
                proof {
                    assert(crate::context::texts(deps@.push(copy)) =~= crate::context::texts(
                        deps@,
                    ).push(copy@));
                }
                deps.push(copy);
            },
            _ => {},
        }
        i += 1;
    }
    deps
}

} // verus!
