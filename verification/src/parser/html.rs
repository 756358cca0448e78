//! HTML files: a page depends on the style sheets and scripts that it
//! refers to.

use vstd::prelude::*;
use crate::context::{after_roots, lemma_unknown_is_unseen, resolve, texts, Context};
use crate::error::{BuildError, Failure};
use crate::io_utils::{file_at, FileSystem};
use crate::modules::{module_type_of, Module};

verus! {

/// Where the references from the `from`-th on lead from the file at
/// `importer`, in order; the error of the first that leads nowhere.
pub open spec fn resolved_references(
    roots: Seq<String>,
    fs: FileSystem,
    importer: Seq<char>,
    references: Seq<Seq<char>>,
    from: int,
) -> Result<Seq<Seq<char>>, Failure>
    decreases references.len() - from,
{
    if from < 0 || from >= references.len() {
        Ok(Seq::empty())
    } else {
        match resolve(roots, fs, importer, references[from]) {
            Err(e) => Err(e),
            Ok(target) => match resolved_references(roots, fs, importer, references, from + 1) {
                Err(e) => Err(e),
                Ok(rest) => Ok(seq![target] + rest),
            },
        }
    }
}

/// What a page at `path` with the given references is: the module that the
/// file holds, and the canonical paths that the references lead to, those of
/// the style sheets before those of the scripts.
pub open spec fn html_module(
    roots: Seq<String>,
    fs: FileSystem,
    path: Seq<char>,
    stylesheets: Seq<Seq<char>>,
    scripts: Seq<Seq<char>>,
) -> Result<((Seq<char>, Seq<char>), Seq<Seq<char>>), Failure> {
    match file_at(fs, path) {
        Err(e) => Err(e),
        Ok((canonical, content)) => match resolved_references(
            roots,
            fs,
            canonical,
            stylesheets + scripts,
            0,
        ) {
            Err(e) => Err(e),
            Ok(targets) => Ok(((canonical, content), targets)),
        },
    }
}

/// Resolves each reference from the file at `importer`.
pub fn resolve_references(
    context: &Context,
    fs: &FileSystem,
    importer: &str,
    references: &Vec<String>,
) -> (r: Result<Vec<String>, BuildError>)
    ensures
        match r {
            Ok(targets) => resolved_references(
                context.resolve_paths@,
                *fs,
                importer@,
                texts(references@),
                0,
            ) == Ok::<Seq<Seq<char>>, Failure>(texts(targets@)),
            Err(e) => resolved_references(
                context.resolve_paths@,
                *fs,
                importer@,
                texts(references@),
                0,
            ) == Err::<Seq<Seq<char>>, Failure>(e@) && (e@ is Unknown || e@ is NotFound),
        },
{
    let ghost roots = context.resolve_paths@;
    let ghost wanted = texts(references@);
    let mut targets: Vec<String> = Vec::new();
    let mut i: usize = 0;
    proof {
        let g = resolved_references(roots, *fs, importer@, wanted, 0);
        if g is Ok {
            assert(texts(targets@) + g->Ok_0 =~= g->Ok_0);
        }
    }
    while i < references.len()
        invariant
            i <= references@.len(),
            roots == context.resolve_paths@,
            wanted == texts(references@),
            resolved_references(roots, *fs, importer@, wanted, 0) == after_roots(
                texts(targets@),
                resolved_references(roots, *fs, importer@, wanted, i as int),
            ),
        decreases references@.len() - i,
    {
        assert(wanted[i as int] == references@[i as int]@);
        assert(wanted.len() == references@.len());
        match context.resolve(fs, importer, references[i].as_str()) {
            Err(e) => {
                proof {
                    lemma_unknown_is_unseen(roots, *fs, importer@, references@[i as int]@);
                }
                return Err(e);
            },
            Ok(target) => {
                proof {
                    let rest = resolved_references(roots, *fs, importer@, wanted, i + 1);
                    assert(texts(targets@.push(target)) =~= texts(targets@).push(target@));
                    if rest is Ok {
                        assert(texts(targets@).push(target@) + rest->Ok_0 =~= texts(targets@) + (
                        seq![target@] + rest->Ok_0));
                    }
                }
                targets.push(target);
            },
        }
        i += 1;
    }
    proof {
        assert(texts(targets@) + Seq::<Seq<char>>::empty() =~= texts(targets@));
    }
    Ok(targets)
}

/// The strings of `first`, then those of `second`.
pub fn one_after_the_other(first: &Vec<String>, second: &Vec<String>) -> (all: Vec<String>)
    ensures
        texts(all@) == texts(first@) + texts(second@),
{
    let mut all: Vec<String> = Vec::new();
    let mut i: usize = 0;
    proof {
        assert(texts(all@) =~= texts(first@).take(0));
    }
    while i < first.len()
        invariant
            i <= first@.len(),
            texts(all@) == texts(first@).take(i as int),
        decreases first@.len() - i,
    {
        let copy = first[i].clone();
        proof {
            assert(texts(all@.push(copy)) =~= texts(all@).push(copy@));
            assert(texts(first@).take(i + 1) =~= texts(first@).take(i as int).push(
                first@[i as int]@,
            ));
        }
        all.push(copy);
        i += 1;
    }
    let mut j: usize = 0;
    proof {
        assert(texts(first@).take(first@.len() as int) =~= texts(first@));
        assert(texts(all@) =~= texts(first@) + texts(second@).take(0));
    }
    while j < second.len()
        invariant
            j <= second@.len(),
            texts(all@) == texts(first@) + texts(second@).take(j as int),
        decreases second@.len() - j,
    {
        let copy = second[j].clone();
        proof {
            assert(texts(all@.push(copy)) =~= texts(all@).push(copy@));
            assert(texts(second@).take(j + 1) =~= texts(second@).take(j as int).push(
                second@[j as int]@,
            ));
            assert((texts(first@) + texts(second@).take(j as int)).push(copy@) =~= texts(first@)
                + texts(second@).take(j as int).push(copy@));
        }
        all.push(copy);
        j += 1;
    }
    proof {
        assert(texts(second@).take(second@.len() as int) =~= texts(second@));
    }
    all
}

/// Reads the page at `input_path` and resolves what it refers to: first the
/// style sheets, then the scripts, each from where the page stands.
pub fn parse_html_module(
    context: &Context,
    fs: &FileSystem,
    input_path: &str,
    stylesheets: &Vec<String>,
    scripts: &Vec<String>,
) -> (r: Result<(Module, Vec<String>), BuildError>)
    ensures
        match r {
            Ok((module, dependencies)) => html_module(
                context.resolve_paths@,
                *fs,
                input_path@,
                texts(stylesheets@),
                texts(scripts@),
            ) == Ok::<((Seq<char>, Seq<char>), Seq<Seq<char>>), Failure>(
                ((module.path@, module.content@), texts(dependencies@)),
            ) && module.mtype == module_type_of(module.path@),
            Err(e) => html_module(
                context.resolve_paths@,
                *fs,
                input_path@,
                texts(stylesheets@),
                texts(scripts@),
            ) == Err::<((Seq<char>, Seq<char>), Seq<Seq<char>>), Failure>(e@),
        },
{
    let module = match Module::from_path(fs, input_path) {
        Ok(module) => module,
        Err(e) => {
            return Err(e);
        },
    };
    let references = one_after_the_other(stylesheets, scripts);
    match resolve_references(context, fs, module.path.as_str(), &references) {
        Ok(dependencies) => Ok((module, dependencies)),
        Err(e) => Err(e),
    }
}

} // verus!
