//! Where imports are looked for: from a specifier and the module that holds
//! it to the canonical path of the module that is meant.

use vstd::prelude::*;
use crate::error::{BuildError, Failure};
use crate::io_utils::{FileKind, FileSystem};
use crate::paths::{
    add_js_extension, dir_of, extension_present, has_extension, join, join_paths, parent,
    with_js_extension,
};
use crate::text::{from_chars, to_chars};

verus! {

/// The directories in which specifiers that name no relative path are
/// looked for, in the order in which they are tried.
#[derive(Debug)]
pub struct Context {
    pub resolve_paths: Vec<String>,
}

/// The canonical path of what stands at `path`, where something does.
pub open spec fn canonical_at(fs: FileSystem, path: Seq<char>, specifier: Seq<char>) -> Result<
    Seq<char>,
    Failure,
> {
    match fs.entry(path) {
        None => Err(Failure::Unknown(path)),
        Some(e) => if e.kind == FileKind::Missing {
            Err(Failure::NotFound(specifier))
        } else {
            Ok(e.canonical@)
        },
    }
}

/// Where a relative specifier leads from the module at `importer`: to
/// the path made of the module's directory and the specifier, with
/// `index.js` added where that is a directory and with the extension `js`
/// where it is none and has no extension; and from there to the canonical
/// path of what stands there.
pub open spec fn resolve_relative(fs: FileSystem, importer: Seq<char>, specifier: Seq<char>)
    -> Result<Seq<char>, Failure> {
    let base = join(dir_of(importer), specifier);
    match fs.entry(base) {
        None => Err(Failure::Unknown(base)),
        Some(e) => canonical_at(
            fs,
            if e.kind == FileKind::Directory {
                join(base, "index.js"@)
            } else if !has_extension(base) {
                with_js_extension(base)
            } else {
                base
            },
            specifier,
        ),
    }
}

/// Where another specifier leads: to the first of the roots from the
/// `from`-th on under which it exists, as a file or as a directory with an
/// `index.js` in it.
pub open spec fn resolve_absolute(
    roots: Seq<String>,
    fs: FileSystem,
    specifier: Seq<char>,
    from: int,
) -> Result<Seq<char>, Failure>
    decreases roots.len() - from,
{
    if from < 0 || from >= roots.len() {
        Err(Failure::NotFound(specifier))
    } else {
        let base = join(roots[from]@, specifier);
        match fs.entry(base) {
            None => Err(Failure::Unknown(base)),
            Some(e) => {
                let candidate = if e.kind == FileKind::Directory {
                    join(base, "index.js"@)
                } else {
                    base
                };
                match fs.entry(candidate) {
                    None => Err(Failure::Unknown(candidate)),
                    Some(c) => if c.kind == FileKind::Missing {
                        resolve_absolute(roots, fs, specifier, from + 1)
                    } else {
                        Ok(c.canonical@)
                    },
                }
            },
        }
    }
}

/// Where a specifier leads: one that begins with a dot is relative to the
/// module that holds it, any other is looked for under the roots.
pub open spec fn resolve(roots: Seq<String>, fs: FileSystem, importer: Seq<char>, specifier: Seq<char>)
    -> Result<Seq<char>, Failure> {
    if specifier.len() > 0 && specifier[0] == '.' {
        resolve_relative(fs, importer, specifier)
    } else {
        resolve_absolute(roots, fs, specifier, 0)
    }
}

/// Whether what a resolution returned is what the rules say.
pub open spec fn resolved(r: Result<String, BuildError>, g: Result<Seq<char>, Failure>) -> bool {
    match r {
        Ok(p) => g == Ok::<Seq<char>, Failure>(p@),
        Err(e) => g == Err::<Seq<char>, Failure>(e@),
    }
}

/// A resolution reports a path as unknown only where the view has no entry
/// for it: once the path has been looked at, the same report cannot come
/// again. It fails in no other way than with a path that is unknown or a
/// specifier that is not found.
pub proof fn lemma_unknown_is_unseen(
    roots: Seq<String>,
    fs: FileSystem,
    importer: Seq<char>,
    specifier: Seq<char>,
)
    ensures
        resolve(roots, fs, importer, specifier) matches Err(Failure::Unknown(path))
            ==> fs.entry(path) is None,
        resolve(roots, fs, importer, specifier) matches Err(f) ==> f is Unknown || f
            == Failure::NotFound(specifier),
{
    lemma_unknown_root_is_unseen(roots, fs, specifier, 0);
}

/// The same for a specifier that is looked for under the roots.
proof fn lemma_unknown_root_is_unseen(roots: Seq<String>, fs: FileSystem, specifier: Seq<char>, from: int)
    ensures
        resolve_absolute(roots, fs, specifier, from) matches Err(Failure::Unknown(path))
            ==> fs.entry(path) is None,
        resolve_absolute(roots, fs, specifier, from) matches Err(f) ==> f is Unknown || f
            == Failure::NotFound(specifier),
    decreases roots.len() - from,
{
    if 0 <= from < roots.len() {
        lemma_unknown_root_is_unseen(roots, fs, specifier, from + 1);
    }
}

/// Resolving the same specifier from the same module in the same view gives
/// the same path, or the same error, every time.
pub proof fn lemma_resolution_is_unique(
    first: Result<String, BuildError>,
    second: Result<String, BuildError>,
    roots: Seq<String>,
    fs: FileSystem,
    importer: Seq<char>,
    specifier: Seq<char>,
)
    requires
        resolved(first, resolve(roots, fs, importer, specifier)),
        resolved(second, resolve(roots, fs, importer, specifier)),
    ensures
        first is Ok <==> second is Ok,
        first is Ok ==> first->Ok_0@ == second->Ok_0@,
        first is Err ==> first->Err_0@ == second->Err_0@,
{
}

/// The parts of `text` from place `from` on that the character `c`
/// separates; `part` is what has been read of the first of them.
pub open spec fn split(text: Seq<char>, c: char, from: int, part: Seq<char>) -> Seq<Seq<char>>
    decreases text.len() - from,
{
    if from < 0 || from >= text.len() {
        seq![part]
    } else if text[from] == c {
        seq![part] + split(text, c, from + 1, Seq::empty())
    } else {
        split(text, c, from + 1, part.push(text[from]))
    }
}

/// The roots that a search path names: the canonical path of each part
/// between colons, from the `from`-th part on. Every part must exist.
pub open spec fn roots_of(fs: FileSystem, parts: Seq<Seq<char>>, from: int) -> Result<
    Seq<Seq<char>>,
    Failure,
>
    decreases parts.len() - from,
{
    if from < 0 || from >= parts.len() {
        Ok(Seq::empty())
    } else {
        match canonical_at(fs, parts[from], parts[from]) {
            Err(e) => Err(e),
            Ok(root) => match roots_of(fs, parts, from + 1) {
                Err(e) => Err(e),
                Ok(rest) => Ok(seq![root] + rest),
            },
        }
    }
}

/// A list of roots with `acc` put before it.
pub open spec fn after_roots(acc: Seq<Seq<char>>, g: Result<Seq<Seq<char>>, Failure>) -> Result<
    Seq<Seq<char>>,
    Failure,
> {
    match g {
        Ok(rest) => Ok(acc + rest),
        Err(e) => Err(e),
    }
}

/// The texts of a list of strings.
pub open spec fn texts(v: Seq<String>) -> Seq<Seq<char>> {
    Seq::new(v.len(), |i: int| v[i]@)
}

/// Splits `text` at every `c`.
pub fn split_at_char(text: &str, c: char) -> (parts: Vec<String>)
    ensures
        texts(parts@) == split(text@, c, 0, Seq::empty()),
{
    let chars = to_chars(text);
    let mut parts: Vec<String> = Vec::new();
    let mut start: usize = 0;
    let mut i: usize = 0;
    proof {
        assert(chars@.subrange(0, 0) =~= Seq::<char>::empty());
        assert(texts(parts@) + split(text@, c, 0, Seq::empty()) =~= split(
            text@,
            c,
            0,
            Seq::empty(),
        ));
    }
    while i < chars.len()
        invariant
            start <= i <= chars@.len(),
            chars@ == text@,
            split(text@, c, 0, Seq::empty()) == texts(parts@) + split(
                text@,
                c,
                i as int,
                chars@.subrange(start as int, i as int),
            ),
        decreases chars@.len() - i,
    {
        if chars[i] == c {
            let part = from_chars(&chars, start, i);
            proof {
                let rest = split(text@, c, i + 1, Seq::empty());
                assert(texts(parts@.push(part)) =~= texts(parts@) + seq![part@]);
                assert(texts(parts@.push(part)) + rest =~= texts(parts@) + (seq![part@] + rest));
                assert(chars@.subrange(i + 1, i + 1) =~= Seq::<char>::empty());
            }
            parts.push(part);
            start = i + 1;
        } else {
            proof {
                assert(chars@.subrange(start as int, i + 1) =~= chars@.subrange(
                    start as int,
                    i as int,
                ).push(chars@[i as int]));
            }
        }
        i += 1;
    }
    let part = from_chars(&chars, start, i);
    proof {
        assert(texts(parts@.push(part)) =~= texts(parts@) + seq![part@]);
    }
    parts.push(part);
    parts
}

/// Gives the canonical path of what stands at `path`.
fn canonicalize(fs: &FileSystem, path: &str, specifier: &str) -> (r: Result<String, BuildError>)
    ensures
        resolved(r, canonical_at(*fs, path@, specifier@)),
{
    match fs.lookup(path) {
        None => Err(BuildError::Unknown(path.to_owned())),
        Some(e) => match e.kind {
            FileKind::Missing => Err(BuildError::NotFound(specifier.to_owned())),
            _ => Ok(e.canonical.clone()),
        },
    }
}

impl Context {
    /// The context for a search path: directories separated by colons, each
    /// of which must exist.
    pub fn new(fs: &FileSystem, resolve_path: &str) -> (r: Result<Context, BuildError>)
        ensures
            match r {
                Ok(context) => roots_of(*fs, split(resolve_path@, ':', 0, Seq::empty()), 0) == Ok::<
                    Seq<Seq<char>>,
                    Failure,
                >(texts(context.resolve_paths@)),
                Err(e) => roots_of(*fs, split(resolve_path@, ':', 0, Seq::empty()), 0) == Err::<
                    Seq<Seq<char>>,
                    Failure,
                >(e@),
            },
    {
        let parts = split_at_char(resolve_path, ':');
        let ghost names = texts(parts@);
        let mut resolve_paths: Vec<String> = Vec::new();
        let mut i: usize = 0;
        proof {
            let g = roots_of(*fs, names, 0);
            if g is Ok {
                assert(texts(resolve_paths@) + g->Ok_0 =~= g->Ok_0);
            }
        }
        while i < parts.len()
            invariant
                i <= parts@.len(),
                names == texts(parts@),
                names == split(resolve_path@, ':', 0, Seq::empty()),
                roots_of(*fs, names, 0) == after_roots(
                    texts(resolve_paths@),
                    roots_of(*fs, names, i as int),
                ),
            decreases parts@.len() - i,
        {
            assert(names[i as int] == parts@[i as int]@);
            match canonicalize(fs, parts[i].as_str(), parts[i].as_str()) {
                Ok(root) => {
                    proof {
                        let rest = roots_of(*fs, names, i + 1);
                        assert(texts(resolve_paths@.push(root)) =~= texts(resolve_paths@).push(
                            root@,
                        ));
                        if rest is Ok {
                            assert(texts(resolve_paths@).push(root@) + rest->Ok_0 =~= texts(
                                resolve_paths@,
                            ) + (seq![root@] + rest->Ok_0));
                        }
                    }
                    resolve_paths.push(root);
                },
                Err(e) => {
                    proof {
                        assert(names.len() == parts@.len());
                        assert(canonical_at(*fs, names[i as int], names[i as int]) is Err);
                        assert(roots_of(*fs, names, i as int) == Err::<Seq<Seq<char>>, Failure>(
                            e@,
                        ));
                    }
                    return Err(e);
                },
            }
            i += 1;
        }
        proof {
            assert(texts(resolve_paths@) + Seq::<Seq<char>>::empty() =~= texts(resolve_paths@));
        }
        Ok(Context { resolve_paths })
    }

    /// The canonical path of the module that `path` names in the module at
    /// `importer`.
    pub fn resolve(&self, fs: &FileSystem, importer: &str, path: &str) -> (r: Result<
        String,
        BuildError,
    >)
        ensures
            resolved(r, resolve(self.resolve_paths@, *fs, importer@, path@)),
    {
        let chars = to_chars(path);
        if chars.len() > 0 && chars[0] == '.' {
            self.resolve_relative(fs, importer, path)
        } else {
            self.resolve_absolute(fs, path)
        }
    }

    /// Resolves a specifier that is relative to the module that holds it.
    pub fn resolve_relative(&self, fs: &FileSystem, importer: &str, path: &str) -> (r: Result<
        String,
        BuildError,
    >)
        ensures
            resolved(r, resolve_relative(*fs, importer@, path@)),
    {
        let dir = parent(importer);
        let base = join_paths(dir.as_str(), path);
        match fs.lookup(base.as_str()) {
            None => Err(BuildError::Unknown(base)),
            Some(e) => {
                let candidate = match e.kind {
                    FileKind::Directory => join_paths(base.as_str(), "index.js"),
                    _ => {
                        if !extension_present(base.as_str()) {
                            add_js_extension(base.as_str())
                        } else {
                            base
                        }
                    },
                };
                canonicalize(fs, candidate.as_str(), path)
            },
        }
    }

    /// Resolves a specifier by looking for it under each root in turn.
    pub fn resolve_absolute(&self, fs: &FileSystem, path: &str) -> (r: Result<String, BuildError>)
        ensures
            resolved(r, resolve_absolute(self.resolve_paths@, *fs, path@, 0)),
    {
        let mut i: usize = 0;
        while i < self.resolve_paths.len()
            invariant
                i <= self.resolve_paths@.len(),
                resolve_absolute(self.resolve_paths@, *fs, path@, 0) == resolve_absolute(
                    self.resolve_paths@,
                    *fs,
                    path@,
                    i as int,
                ),
            decreases self.resolve_paths@.len() - i,
        {
            let base = join_paths(self.resolve_paths[i].as_str(), path);
            let candidate = match fs.lookup(base.as_str()) {
                None => {
                    return Err(BuildError::Unknown(base));
                },
                Some(e) => match e.kind {
                    FileKind::Directory => join_paths(base.as_str(), "index.js"),
                    _ => base,
                },
            };
            match fs.lookup(candidate.as_str()) {
                None => {
                    return Err(BuildError::Unknown(candidate));
                },
                Some(c) => match c.kind {
                    FileKind::Missing => {},
                    _ => {
                        return Ok(c.canonical.clone());
                    },
                },
            }
            i += 1;
        }
        Err(BuildError::NotFound(path.to_owned()))
    }
}

} // verus!
