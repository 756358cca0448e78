//! The graph of a build: the modules that the entry module reaches through
//! imports, each once, and an edge for every import.

use vstd::prelude::*;
use vstd::set_lib::{lemma_int_range, lemma_len_subset, lemma_map_size, set_int_range};
use crate::context::{after_roots, lemma_unknown_is_unseen, resolve, texts, Context};
use crate::error::{BuildError, Failure};
use crate::graph::{
    add_edge, add_node, edge_count, follows_edges, graph_edges, graph_new, graph_nodes, node_count,
    Imports,
};
use crate::io_utils::{file_at, find_entry, read_file, FileEntry, FileSystem};
use crate::javascript::ast::Statement;
use crate::javascript::queries::import_sources;
use crate::javascript::statements::{describes, imports, program, Item};
use crate::javascript::JsModule;

verus! {

/// The modules of a build and the graph of their imports. The node at place
/// `i` of the graph stands for the module at place `i`.
pub struct DependencyGraph {
    pub modules: Vec<JsModule>,
    pub graph: Imports,
}

/// Whether `new` is `old` with its import, if it is one, pointed at the
/// canonical path that its specifier leads to from `importer`.
pub open spec fn redirected(
    old: Statement,
    new: Statement,
    roots: Seq<String>,
    fs: FileSystem,
    importer: Seq<char>,
) -> bool {
    match old {
        Statement::Import(specifier, source) => match new {
            Statement::Import(kept, target) => kept == specifier && resolve(
                roots,
                fs,
                importer,
                source@,
            ) == Ok::<Seq<char>, Failure>(target@),
            _ => false,
        },
        _ => new == old,
    }
}

/// Where the imports among the statements from the `from`-th on lead, in
/// order; the error of the first that leads nowhere.
pub open spec fn resolved_imports(
    roots: Seq<String>,
    fs: FileSystem,
    importer: Seq<char>,
    body: Seq<Statement>,
    from: int,
) -> Result<Seq<Seq<char>>, Failure>
    decreases body.len() - from,
{
    if from < 0 || from >= body.len() {
        Ok(Seq::empty())
    } else {
        match body[from] {
            Statement::Import(_, source) => match resolve(roots, fs, importer, source@) {
                Err(e) => Err(e),
                Ok(target) => match resolved_imports(roots, fs, importer, body, from + 1) {
                    Err(e) => Err(e),
                    Ok(rest) => Ok(seq![target] + rest),
                },
            },
            _ => resolved_imports(roots, fs, importer, body, from + 1),
        }
    }
}

/// Whether the tree `s` says what `item` says, an import pointed at the
/// canonical path that its specifier leads to from `importer`.
pub open spec fn describes_redirected(
    item: Item,
    s: Statement,
    roots: Seq<String>,
    fs: FileSystem,
    importer: Seq<char>,
) -> bool {
    match item {
        Item::Import { what, source } => match s {
            Statement::Import(specifier, target) => imports(what, specifier) && resolve(
                roots,
                fs,
                importer,
                source,
            ) == Ok::<Seq<char>, Failure>(target@),
            _ => false,
        },
        _ => describes(item, s),
    }
}

/// Whether `m` is what the file at its path holds: the text of the file,
/// and the tree of that text with every import pointed at the canonical
/// path of the module it names.
pub open spec fn loaded(m: JsModule, roots: Seq<String>, fs: FileSystem) -> bool {
    &&& file_at(fs, m.path@) == Ok::<(Seq<char>, Seq<char>), Failure>((m.path@, m.source@))
    &&& program(m.source@) is Ok
    &&& program(m.source@)->Ok_0.len() == m.program.body@.len()
    &&& forall|k: int|
        0 <= k < m.program.body@.len() ==> describes_redirected(
            program(m.source@)->Ok_0[k],
            #[trigger] m.program.body@[k],
            roots,
            fs,
            m.path@,
        )
}

/// The vector with its items in the opposite order.
fn reversed<T>(v: Vec<T>) -> (r: Vec<T>)
    ensures
        r@.len() == v@.len(),
        forall|i: int| 0 <= i < r@.len() ==> r@[i] == v@[v@.len() - 1 - i],
{
    let ghost all = v@;
    let mut rest = v;
    let mut r: Vec<T> = Vec::new();
    while rest.len() > 0
        invariant
            rest@.len() + r@.len() == all.len(),
            forall|i: int| 0 <= i < rest@.len() ==> rest@[i] == all[i],
            forall|i: int| 0 <= i < r@.len() ==> r@[i] == all[all.len() - 1 - i],
        decreases rest@.len(),
    {
        match rest.pop() {
            Some(x) => r.push(x),
            None => {},
        }
    }
    r
}

/// The texts among the first `n` of `targets`, in order.
pub open spec fn present(targets: Seq<Option<String>>, n: int) -> Seq<Seq<char>>
    decreases n,
{
    if n <= 0 || n > targets.len() {
        Seq::empty()
    } else {
        match targets[n - 1] {
            Some(t) => present(targets, n - 1).push(t@),
            None => present(targets, n - 1),
        }
    }
}

/// Resolves every import of the module and points it at the canonical path
/// of the module that it names. Gives those paths in the order of the
/// imports. Where an import leads nowhere the module is left as it was.
pub fn resolve_paths_to_absolute(context: &Context, fs: &FileSystem, module: &mut JsModule) -> (r:
    Result<Vec<String>, BuildError>)
    ensures
        final(module).path == old(module).path,
        final(module).source == old(module).source,
        final(module).program.source_type == old(module).program.source_type,
        match r {
            Ok(deps) => {
                &&& resolved_imports(
                    context.resolve_paths@,
                    *fs,
                    old(module).path@,
                    old(module).program.body@,
                    0,
                ) == Ok::<Seq<Seq<char>>, Failure>(texts(deps@))
                &&& final(module).program.body@.len() == old(module).program.body@.len()
                &&& forall|k: int|
                    0 <= k < old(module).program.body@.len() ==> redirected(
                        old(module).program.body@[k],
                        #[trigger] final(module).program.body@[k],
                        context.resolve_paths@,
                        *fs,
                        old(module).path@,
                    )
                &&& texts(deps@) == import_sources(
                    final(module).program.body@,
                    final(module).program.body@.len() as int,
                )
            },
            Err(e) => {
                &&& resolved_imports(
                    context.resolve_paths@,
                    *fs,
                    old(module).path@,
                    old(module).program.body@,
                    0,
                ) == Err::<Seq<Seq<char>>, Failure>(e@)
                &&& *final(module) == *old(module)
            },
        },
        r matches Err(BuildError::Unknown(path)) ==> fs.entry(path@) is None,
        r matches Err(e) ==> e@ is Unknown || e@ is NotFound,
{
    let ghost roots = context.resolve_paths@;
    let ghost importer = module.path@;
    let ghost body = module.program.body@;
    let mut dependencies: Vec<String> = Vec::new();
    let mut targets: Vec<Option<String>> = Vec::new();
    let mut i: usize = 0;
    proof {
        let g = resolved_imports(roots, *fs, importer, body, 0);
        if g is Ok {
            assert(texts(dependencies@) + g->Ok_0 =~= g->Ok_0);
        }
        assert(texts(dependencies@) =~= present(targets@, 0));
    }
    while i < module.program.body.len()
        invariant
            *module == *old(module),
            roots == context.resolve_paths@,
            importer == module.path@,
            body == module.program.body@,
            i <= body.len(),
            targets@.len() == i,
            texts(dependencies@) == present(targets@, i as int),
            resolved_imports(roots, *fs, importer, body, 0) == after_roots(
                texts(dependencies@),
                resolved_imports(roots, *fs, importer, body, i as int),
            ),
            forall|k: int|
                0 <= k < i ==> match #[trigger] body[k] {
                    Statement::Import(_, source) => targets@[k] is Some && resolve(
                        roots,
                        *fs,
                        importer,
                        source@,
                    ) == Ok::<Seq<char>, Failure>(targets@[k]->Some_0@),
                    _ => targets@[k] is None,
                },
        decreases body.len() - i,
    {
        match &module.program.body[i] {
            Statement::Import(_, source) => {
                match context.resolve(fs, module.path.as_str(), source.as_str()) {
                    Err(e) => {
                        proof {
                            lemma_unknown_is_unseen(roots, *fs, importer, source@);
                        }
                        return Err(e);
                    },
                    Ok(target) => {
                        let copy = target.clone();
                        proof {
                            let rest = resolved_imports(roots, *fs, importer, body, i + 1);
                            assert(texts(dependencies@.push(copy)) =~= texts(dependencies@).push(
                                target@,
                            ));
                            if rest is Ok {
                                assert(texts(dependencies@).push(target@) + rest->Ok_0 =~= texts(
                                    dependencies@,
                                ) + (seq![target@] + rest->Ok_0));
                            }
                            assert(targets@.push(Some(target)).take(i as int) =~= targets@);
                            lemma_present_prefix(targets@.push(Some(target)), targets@, i as int);
                        }
                        dependencies.push(copy);
                        targets.push(Some(target));
                    },
                }
            },
            _ => {
                proof {
                    lemma_present_prefix(targets@.push(None), targets@, i as int);
                }
                targets.push(None);
            },
        }
        i += 1;
    }
    proof {
        assert(texts(dependencies@) + Seq::<Seq<char>>::empty() =~= texts(dependencies@));
    }
    let mut taken: Vec<Statement> = Vec::new();
    core::mem::swap(&mut module.program.body, &mut taken);
    let mut rest = reversed(taken);
    let mut rewritten: Vec<Statement> = Vec::new();
    let mut j: usize = 0;
    while j < targets.len()
        invariant
            j <= targets@.len(),
            targets@.len() == body.len(),
            rest@.len() + j == body.len(),
            forall|k: int| 0 <= k < rest@.len() ==> rest@[k] == body[body.len() - 1 - k],
            rewritten@.len() == j,
            forall|k: int|
                0 <= k < body.len() ==> match #[trigger] body[k] {
                    Statement::Import(_, source) => targets@[k] is Some && resolve(
                        roots,
                        *fs,
                        importer,
                        source@,
                    ) == Ok::<Seq<char>, Failure>(targets@[k]->Some_0@),
                    _ => targets@[k] is None,
                },
            forall|k: int|
                0 <= k < j ==> redirected(body[k], #[trigger] rewritten@[k], roots, *fs, importer),
            import_sources(rewritten@, j as int) == present(targets@, j as int),
        decreases targets@.len() - j,
    {
        let statement = match rest.pop() {
            Some(s) => s,
            None => Statement::Empty,
        };
        assert(statement == body[j as int]);
        let ghost before = rewritten@;
        let next = match statement {
            Statement::Import(specifier, source) => {
                let target = match &targets[j] {
                    Some(t) => t.clone(),
                    None => source,
                };
                Statement::Import(specifier, target)
            },
            other => other,
        };
        rewritten.push(next);
        proof {
            lemma_sources_prefix(rewritten@, before, j as int);
        }
        j += 1;
    }
    module.program.body = rewritten;
    Ok(dependencies)
}

/// The texts among the first `n` items do not depend on what follows them.
proof fn lemma_present_prefix(a: Seq<Option<String>>, b: Seq<Option<String>>, n: int)
    requires
        0 <= n <= a.len(),
        n <= b.len(),
        forall|k: int| 0 <= k < n ==> a[k] == b[k],
    ensures
        present(a, n) == present(b, n),
    decreases n,
{
    if n > 0 {
        lemma_present_prefix(a, b, n - 1);
    }
}

/// What the first `n` statements import does not depend on what follows
/// them.
proof fn lemma_sources_prefix(a: Seq<Statement>, b: Seq<Statement>, n: int)
    requires
        0 <= n <= a.len(),
        n <= b.len(),
        forall|k: int| 0 <= k < n ==> a[k] == b[k],
    ensures
        import_sources(a, n) == import_sources(b, n),
    decreases n,
{
    if n > 0 {
        lemma_sources_prefix(a, b, n - 1);
    }
}

impl DependencyGraph {
    /// Whether the graph is in order: it has a node for each module, which
    /// carries the module's place; every edge joins two of its nodes; and no
    /// two modules have the same path.
    pub open spec fn wf(&self) -> bool {
        &&& graph_nodes(self.graph).len() == self.modules@.len()
        &&& forall|i: int|
            0 <= i < self.modules@.len() ==> #[trigger] graph_nodes(self.graph)[i] == i
        &&& forall|k: int|
            0 <= k < graph_edges(self.graph).len() ==> (#[trigger] graph_edges(self.graph)[k]).0
                < self.modules@.len() && graph_edges(self.graph)[k].1 < self.modules@.len()
        &&& forall|i: int, j: int|
            0 <= i < j < self.modules@.len() ==> (#[trigger] self.modules@[i]).path@
                != (#[trigger] self.modules@[j]).path@
    }

    /// Whether the graph has an edge from the node at `from` to the node at
    /// `to`.
    pub open spec fn has_edge(&self, from: int, to: int) -> bool {
        exists|k: int|
            0 <= k < graph_edges(self.graph).len() && (#[trigger] graph_edges(self.graph)[k]).0
                == from && graph_edges(self.graph)[k].1 == to
    }

    /// Whether the graph has an edge from the node at `from` to a node whose
    /// module has the path `path`.
    pub open spec fn imports(&self, from: int, path: Seq<char>) -> bool {
        exists|to: int|
            0 <= to < self.modules@.len() && (#[trigger] self.modules@[to]).path@ == path
                && self.has_edge(from, to)
    }

    /// Whether every import of the module at `i` has its module and its edge
    /// in the graph.
    pub open spec fn closed(&self, i: int) -> bool {
        forall|k: int|
            0 <= k < self.modules@[i].program.body@.len() ==> match #[trigger] self.modules@[i].program.body@[k] {
                Statement::Import(_, source) => self.imports(i, source@),
                _ => true,
            }
    }

    /// Whether every edge stands for an import: a statement of the module at
    /// its source imports from the path of the module at its target.
    pub open spec fn edges_are_imports(&self) -> bool {
        forall|k: int|
            0 <= k < graph_edges(self.graph).len() ==> module_imports(
                self.modules@[(#[trigger] graph_edges(self.graph)[k]).0 as int],
                self.modules@[graph_edges(self.graph)[k].1 as int].path@,
            )
    }

    /// Whether the graph has no more edges than its modules have imports.
    pub open spec fn edges_within_imports(&self) -> bool {
        graph_edges(self.graph).len() <= imports_between(
            self.modules@,
            0,
            self.modules@.len() as int,
        )
    }

    /// Whether the graph holds all of `old` at the same places.
    pub open spec fn extends(&self, old: DependencyGraph) -> bool {
        &&& old.modules@.len() <= self.modules@.len()
        &&& forall|i: int| 0 <= i < old.modules@.len() ==> self.modules@[i] == old.modules@[i]
        &&& graph_edges(old.graph).len() <= graph_edges(self.graph).len()
        &&& forall|k: int|
            0 <= k < graph_edges(old.graph).len() ==> graph_edges(self.graph)[k] == graph_edges(
                old.graph,
            )[k]
    }

    /// Whether every module is what the file at its path holds.
    pub open spec fn loaded_from(&self, roots: Seq<String>, fs: FileSystem) -> bool {
        forall|i: int| 0 <= i < self.modules@.len() ==> loaded(#[trigger] self.modules@[i], roots, fs)
    }

    /// A graph without modules.
    pub fn new() -> (g: DependencyGraph)
        ensures
            g.wf(),
            g.modules@.len() == 0,
            graph_edges(g.graph).len() == 0,
    {
        DependencyGraph { modules: Vec::new(), graph: graph_new() }
    }

    /// The number of nodes, which in a graph that is in order is the number
    /// of modules.
    pub fn node_count(&self) -> (n: usize)
        ensures
            n == graph_nodes(self.graph).len(),
            self.wf() ==> n == self.modules@.len(),
    {
        node_count(&self.graph)
    }

    /// The number of imports.
    pub fn edge_count(&self) -> (n: usize)
        ensures
            n == graph_edges(self.graph).len(),
    {
        edge_count(&self.graph)
    }

    /// The place of the module with the path `path`, if the graph has it.
    pub fn find(&self, path: &str) -> (r: Option<usize>)
        ensures
            match r {
                Some(i) => i < self.modules@.len() && self.modules@[i as int].path@ == path@,
                None => forall|i: int|
                    0 <= i < self.modules@.len() ==> (#[trigger] self.modules@[i]).path@ != path@,
            },
    {
        let mut i: usize = 0;
        while i < self.modules.len()
            invariant
                i <= self.modules@.len(),
                forall|k: int| 0 <= k < i ==> (#[trigger] self.modules@[k]).path@ != path@,
            decreases self.modules@.len() - i,
        {
            if crate::text::equal(self.modules[i].path.as_str(), path) {
                return Some(i);
            }
            i += 1;
        }
        None
    }

    /// Adds a module whose path no module of the graph has, and gives back
    /// its place.
    fn add_module(&mut self, module: JsModule) -> (place: usize)
        requires
            old(self).wf(),
            old(self).modules@.len() < u32::MAX,
            forall|i: int|
                0 <= i < old(self).modules@.len() ==> (#[trigger] old(self).modules@[i]).path@
                    != module.path@,
        ensures
            final(self).wf(),
            final(self).modules@ == old(self).modules@.push(module),
            graph_edges(final(self).graph) == graph_edges(old(self).graph),
            place == old(self).modules@.len(),
    {
        let place = self.modules.len();
        self.modules.push(module);
        add_node(&mut self.graph, place);
        place
    }

    /// Adds an edge for an import of the module at `from` that names the
    /// module at `to`.
    fn add_import(&mut self, from: usize, to: usize)
        requires
            old(self).wf(),
            from < old(self).modules@.len(),
            to < old(self).modules@.len(),
            graph_edges(old(self).graph).len() < u32::MAX,
        ensures
            final(self).wf(),
            final(self).modules@ == old(self).modules@,
            graph_edges(final(self).graph) == graph_edges(old(self).graph).push((from, to)),
    {
        add_edge(&mut self.graph, from, to, 0);
    }
}

/// Whether the view has a file at each of `paths` whose canonical path is
/// that path.
pub open spec fn all_files(fs: FileSystem, paths: Seq<Seq<char>>) -> bool {
    forall|i: int|
        0 <= i < paths.len() ==> file_at(fs, #[trigger] paths[i]) is Ok && file_at(
            fs,
            paths[i],
        )->Ok_0.0 == paths[i]
}

/// The paths of the modules of a graph, in order.
pub open spec fn paths_of(modules: Seq<JsModule>) -> Seq<Seq<char>> {
    Seq::new(modules.len(), |i: int| modules[i].path@)
}

/// The first entry with a given path stands at or after the place where the
/// search began.
pub proof fn lemma_find_entry_bounds(fs: FileSystem, path: Seq<char>, from: int)
    requires
        0 <= from,
    ensures
        from <= find_entry(fs.entries@, path, from) || find_entry(fs.entries@, path, from)
            == fs.entries@.len(),
        find_entry(fs.entries@, path, from) <= fs.entries@.len(),
        find_entry(fs.entries@, path, from) < fs.entries@.len() ==> fs.entries@[find_entry(
            fs.entries@,
            path,
            from,
        )].path@ == path,
    decreases fs.entries@.len() - from,
{
    if from < fs.entries@.len() && fs.entries@[from].path@ != path {
        lemma_find_entry_bounds(fs, path, from + 1);
    }
}

/// A view has at least as many entries as it has files at different paths.
pub proof fn lemma_paths_fit(fs: FileSystem, paths: Seq<Seq<char>>)
    requires
        all_files(fs, paths),
        forall|i: int, j: int| 0 <= i < j < paths.len() ==> paths[i] != paths[j],
    ensures
        paths.len() <= fs.entries@.len(),
{
    let f = |i: int| find_entry(fs.entries@, paths[i], 0);
    let x = set_int_range(0, paths.len() as int);
    let y = x.map(f);
    lemma_int_range(0, paths.len() as int);
    lemma_int_range(0, fs.entries@.len() as int);
    assert forall|i: int| 0 <= i < paths.len() implies 0 <= #[trigger] f(i) < fs.entries@.len()
        && fs.entries@[f(i)].path@ == paths[i] by {
        lemma_find_entry_bounds(fs, paths[i], 0);
        assert(file_at(fs, paths[i]) is Ok);
    }
    assert(vstd::relations::injective_on(f, x)) by {
        assert forall|a: int, b: int| x.contains(a) && x.contains(b) && #[trigger] f(a)
            == #[trigger] f(b) implies a == b by {
            assert(fs.entries@[f(a)].path@ == paths[a]);
            assert(fs.entries@[f(b)].path@ == paths[b]);
            if a < b {
                assert(paths[a] != paths[b]);
            }
            if b < a {
                assert(paths[b] != paths[a]);
            }
        }
    }
    lemma_map_size(x, y, f);
    assert(y.subset_of(set_int_range(0, fs.entries@.len() as int))) by {
        assert forall|k: int| y.contains(k) implies set_int_range(
            0,
            fs.entries@.len() as int,
        ).contains(k) by {
            let i = choose|i: int| x.contains(i) && f(i) == k;
            assert(0 <= f(i) < fs.entries@.len());
        }
    }
    lemma_len_subset(y, set_int_range(0, fs.entries@.len() as int));
}

/// Where the imports among the items from the `from`-th on lead, in order;
/// the error of the first that leads nowhere.
pub open spec fn resolved_item_imports(
    roots: Seq<String>,
    fs: FileSystem,
    importer: Seq<char>,
    items: Seq<Item>,
    from: int,
) -> Result<Seq<Seq<char>>, Failure>
    decreases items.len() - from,
{
    if from < 0 || from >= items.len() {
        Ok(Seq::empty())
    } else {
        match items[from] {
            Item::Import { what, source } => match resolve(roots, fs, importer, source) {
                Err(e) => Err(e),
                Ok(target) => match resolved_item_imports(roots, fs, importer, items, from + 1) {
                    Err(e) => Err(e),
                    Ok(rest) => Ok(seq![target] + rest),
                },
            },
            _ => resolved_item_imports(roots, fs, importer, items, from + 1),
        }
    }
}

/// What is wrong with the module at `path` itself, if anything: its file
/// cannot be read, `path` is not its canonical path, its text is no module,
/// or one of its imports leads nowhere.
pub open spec fn local_failure(roots: Seq<String>, fs: FileSystem, path: Seq<char>) -> Option<
    Failure,
> {
    match file_at(fs, path) {
        Err(f) => Some(f),
        Ok((canonical, content)) => if canonical != path {
            Some(Failure::Unreadable(path))
        } else {
            match program(content) {
                Err(e) => Some(Failure::Syntax(path, e)),
                Ok(items) => match resolved_item_imports(roots, fs, path, items, 0) {
                    Err(f) => Some(f),
                    Ok(_) => None,
                },
            }
        },
    }
}

/// Whether the module at `p` is in order and imports the module at `q`.
pub open spec fn leads(roots: Seq<String>, fs: FileSystem, p: Seq<char>, q: Seq<char>) -> bool {
    &&& local_failure(roots, fs, p) is None
    &&& resolved_item_imports(
        roots,
        fs,
        p,
        program(file_at(fs, p)->Ok_0.1)->Ok_0,
        0,
    )->Ok_0.contains(q)
}

/// Whether `n` imports, each in a module that is in order, lead from the
/// module at `p` to the module at `q`.
pub open spec fn reaches(roots: Seq<String>, fs: FileSystem, p: Seq<char>, q: Seq<char>, n: nat)
    -> bool
    decreases n,
{
    if n == 0 {
        p == q
    } else {
        exists|m: Seq<char>|
            #[trigger] leads(roots, fs, p, m) && reaches(roots, fs, m, q, (n - 1) as nat)
    }
}

/// Whether `f` is what is wrong with a module that imports lead to from the
/// module at `p`.
pub open spec fn fails_from(roots: Seq<String>, fs: FileSystem, p: Seq<char>, f: Failure) -> bool {
    exists|q: Seq<char>, n: nat|
        #[trigger] reaches(roots, fs, p, q, n) && local_failure(roots, fs, q) == Some(f)
}

/// Whether imports, each in a module that is in order, lead from the module
/// at `p` to the module at `q`.
pub open spec fn reachable(roots: Seq<String>, fs: FileSystem, p: Seq<char>, q: Seq<char>) -> bool {
    exists|n: nat| #[trigger] reaches(roots, fs, p, q, n)
}

/// What can be reached from a module that `p` imports can be reached from
/// `p`.
proof fn lemma_reachable_through(
    roots: Seq<String>,
    fs: FileSystem,
    p: Seq<char>,
    m: Seq<char>,
    q: Seq<char>,
)
    requires
        leads(roots, fs, p, m),
        reachable(roots, fs, m, q),
    ensures
        reachable(roots, fs, p, q),
{
    let n = choose|n: nat| #[trigger] reaches(roots, fs, m, q, n);
    assert(reaches(roots, fs, p, q, n + 1)) by {
        assert(leads(roots, fs, p, m) && reaches(roots, fs, m, q, ((n + 1) - 1) as nat));
    }
}

/// What is wrong with a module is wrong with what leads from it.
proof fn lemma_fails_here(roots: Seq<String>, fs: FileSystem, p: Seq<char>, f: Failure)
    requires
        local_failure(roots, fs, p) == Some(f),
    ensures
        fails_from(roots, fs, p, f),
{
    assert(reaches(roots, fs, p, p, 0));
}

/// What is wrong with what leads from a module that `p` imports is wrong
/// with what leads from `p`.
proof fn lemma_fails_through(
    roots: Seq<String>,
    fs: FileSystem,
    p: Seq<char>,
    m: Seq<char>,
    f: Failure,
)
    requires
        leads(roots, fs, p, m),
        fails_from(roots, fs, m, f),
    ensures
        fails_from(roots, fs, p, f),
{
    let (q, n) = choose|q: Seq<char>, n: nat|
        #[trigger] reaches(roots, fs, m, q, n) && local_failure(roots, fs, q) == Some(f);
    assert(reaches(roots, fs, p, q, n + 1)) by {
        assert(leads(roots, fs, p, m) && reaches(roots, fs, m, q, ((n + 1) - 1) as nat));
    }
}

/// The imports of statements lead where the imports of the items lead that
/// the statements say.
pub proof fn lemma_imports_of_items(
    roots: Seq<String>,
    fs: FileSystem,
    importer: Seq<char>,
    items: Seq<Item>,
    body: Seq<Statement>,
    from: int,
)
    requires
        crate::javascript::statements::describes_all(items, body),
        0 <= from <= items.len(),
    ensures
        resolved_imports(roots, fs, importer, body, from) == resolved_item_imports(
            roots,
            fs,
            importer,
            items,
            from,
        ),
    decreases items.len() - from,
{
    if from < items.len() {
        lemma_imports_of_items(roots, fs, importer, items, body, from + 1);
        assert(describes(items[from], body[from]));
    }
}

/// Whether a statement of the module itself imports from `path`.
pub open spec fn module_imports(m: JsModule, path: Seq<char>) -> bool {
    exists|j: int|
        0 <= j < m.program.body@.len() && (#[trigger] m.program.body@[j]) is Import
            && m.program.body@[j]->Import_1@ == path
}

/// How many imports stand among the first `n` items.
pub open spec fn count_imports(items: Seq<Item>, n: int) -> nat
    decreases n,
{
    if n <= 0 || n > items.len() {
        0
    } else if items[n - 1] is Import {
        count_imports(items, n - 1) + 1
    } else {
        count_imports(items, n - 1)
    }
}

/// How many imports the text of an entry of the view holds, where it is a
/// module.
pub open spec fn entry_imports(e: FileEntry) -> nat {
    match program(e.content@) {
        Ok(items) => count_imports(items, items.len() as int),
        Err(_) => 0,
    }
}

/// The sum of what `weight` gives for the first `n` places.
pub open spec fn weight_sum(weight: spec_fn(int) -> nat, n: int) -> nat
    decreases n,
{
    if n <= 0 {
        0
    } else {
        weight_sum(weight, n - 1) + weight(n - 1)
    }
}

/// How many imports the texts of the first `n` entries of the view hold
/// together.
pub open spec fn view_imports(fs: FileSystem, n: int) -> nat {
    weight_sum(|k: int| entry_imports(fs.entries@[k]), n)
}

/// Whether the entry at `k` is the one that counts for one of the first `m`
/// paths.
pub open spec fn counted(fs: FileSystem, paths: Seq<Seq<char>>, m: int, k: int) -> bool {
    exists|i: int| 0 <= i < m && i < paths.len() && #[trigger] find_entry(fs.entries@, paths[i], 0) == k
}

/// The sum of what `weight` gives for those of the first `n` entries that
/// count for one of the first `m` paths.
pub open spec fn counted_sum(
    fs: FileSystem,
    paths: Seq<Seq<char>>,
    m: int,
    n: int,
    weight: spec_fn(int) -> nat,
) -> nat
    decreases n,
{
    if n <= 0 {
        0
    } else if counted(fs, paths, m, n - 1) {
        counted_sum(fs, paths, m, n - 1, weight) + weight(n - 1)
    } else {
        counted_sum(fs, paths, m, n - 1, weight)
    }
}

/// Some entries weigh no more than all.
pub proof fn lemma_counted_within_view(
    fs: FileSystem,
    paths: Seq<Seq<char>>,
    m: int,
    n: int,
    weight: spec_fn(int) -> nat,
)
    requires
        0 <= n,
    ensures
        counted_sum(fs, paths, m, n, weight) <= weight_sum(weight, n),
    decreases n,
{
    if n > 0 {
        lemma_counted_within_view(fs, paths, m, n - 1, weight);
    }
}

/// Counting for one path more adds the weight of the entry of that path.
pub proof fn lemma_counted_one_more(
    fs: FileSystem,
    paths: Seq<Seq<char>>,
    m: int,
    n: int,
    weight: spec_fn(int) -> nat,
)
    requires
        0 <= m < paths.len(),
        0 <= n,
        0 <= find_entry(fs.entries@, paths[m], 0),
        !counted(fs, paths, m, find_entry(fs.entries@, paths[m], 0)),
    ensures
        counted_sum(fs, paths, m + 1, n, weight) == counted_sum(fs, paths, m, n, weight) + (
        if find_entry(fs.entries@, paths[m], 0) < n {
            weight(find_entry(fs.entries@, paths[m], 0))
        } else {
            0
        }),
    decreases n,
{
    if n > 0 {
        lemma_counted_one_more(fs, paths, m, n - 1, weight);
        let x = find_entry(fs.entries@, paths[m], 0);
        let k = n - 1;
        if counted(fs, paths, m + 1, k) {
            let i = choose|i: int|
                0 <= i < m + 1 && i < paths.len() && #[trigger] find_entry(fs.entries@, paths[i], 0)
                    == k;
            if i < m {
                assert(counted(fs, paths, m, k));
            }
        }
        if counted(fs, paths, m, k) {
            let i = choose|i: int|
                0 <= i < m && i < paths.len() && #[trigger] find_entry(fs.entries@, paths[i], 0)
                    == k;
            assert(0 <= i < m + 1 && find_entry(fs.entries@, paths[i], 0) == k);
            assert(counted(fs, paths, m + 1, k));
        }
        if k == x {
            assert(0 <= m < m + 1 && find_entry(fs.entries@, paths[m], 0) == k);
            assert(counted(fs, paths, m + 1, k));
        }
    }
}

/// Where no path counts, nothing is counted.
pub proof fn lemma_nothing_counted(
    fs: FileSystem,
    paths: Seq<Seq<char>>,
    n: int,
    weight: spec_fn(int) -> nat,
)
    requires
        0 <= n,
    ensures
        counted_sum(fs, paths, 0, n, weight) == 0,
    decreases n,
{
    if n > 0 {
        lemma_nothing_counted(fs, paths, n - 1, weight);
    }
}

/// The entry of a path that differs from the first `m` paths, each of which
/// names a file of the view, counts for none of them.
pub proof fn lemma_new_path_not_counted(fs: FileSystem, paths: Seq<Seq<char>>, m: int)
    requires
        0 <= m < paths.len(),
        all_files(fs, paths),
        forall|i: int| 0 <= i < m ==> #[trigger] paths[i] != paths[m],
    ensures
        0 <= find_entry(fs.entries@, paths[m], 0) < fs.entries@.len(),
        fs.entries@[find_entry(fs.entries@, paths[m], 0)].path@ == paths[m],
        fs.entry(paths[m]) == Some(fs.entries@[find_entry(fs.entries@, paths[m], 0)]),
        !counted(fs, paths, m, find_entry(fs.entries@, paths[m], 0)),
{
    let x = find_entry(fs.entries@, paths[m], 0);
    assert(file_at(fs, paths[m]) is Ok);
    lemma_find_entry_bounds(fs, paths[m], 0);
    if counted(fs, paths, m, x) {
        let i = choose|i: int|
            0 <= i < m && i < paths.len() && #[trigger] find_entry(fs.entries@, paths[i], 0) == x;
        assert(file_at(fs, paths[i]) is Ok);
        lemma_find_entry_bounds(fs, paths[i], 0);
        assert(paths[i] != paths[m]);
    }
}

/// A module has as many imports as the items that its statements say.
proof fn lemma_import_count(
    items: Seq<Item>,
    body: Seq<Statement>,
    roots: Seq<String>,
    fs: FileSystem,
    importer: Seq<char>,
    n: int,
)
    requires
        items.len() == body.len(),
        forall|k: int|
            0 <= k < body.len() ==> describes_redirected(
                items[k],
                #[trigger] body[k],
                roots,
                fs,
                importer,
            ),
        0 <= n <= body.len(),
    ensures
        import_sources(body, n).len() == count_imports(items, n),
    decreases n,
{
    if n > 0 {
        lemma_import_count(items, body, roots, fs, importer, n - 1);
        assert(describes_redirected(items[n - 1], body[n - 1], roots, fs, importer));
    }
}

/// The modules of a graph hold the imports of the entries that count for
/// their paths.
proof fn lemma_imports_are_counted(graph: DependencyGraph, roots: Seq<String>, fs: FileSystem, m: int)
    requires
        graph.wf(),
        all_files(fs, paths_of(graph.modules@)),
        graph.loaded_from(roots, fs),
        0 <= m <= graph.modules@.len(),
    ensures
        imports_between(graph.modules@, 0, m) == counted_sum(
            fs,
            paths_of(graph.modules@),
            m,
            fs.entries@.len() as int,
            |k: int| entry_imports(fs.entries@[k]),
        ),
    decreases m,
{
    let paths = paths_of(graph.modules@);
    let n = fs.entries@.len() as int;
    let weight = |k: int| entry_imports(fs.entries@[k]);
    if m == 0 {
        lemma_nothing_counted(fs, paths, n, weight);
    } else {
        lemma_imports_are_counted(graph, roots, fs, m - 1);
        let module = graph.modules@[m - 1];
        let x = find_entry(fs.entries@, paths[m - 1], 0);
        assert forall|i: int| 0 <= i < m - 1 implies #[trigger] paths[i] != paths[m - 1] by {
            assert(graph.modules@[i].path@ != graph.modules@[m - 1].path@);
        }
        lemma_new_path_not_counted(fs, paths, m - 1);
        lemma_counted_one_more(fs, paths, m - 1, n, weight);
        assert(loaded(module, roots, fs));
        lemma_import_count(
            program(module.source@)->Ok_0,
            module.program.body@,
            roots,
            fs,
            module.path@,
            module.program.body@.len() as int,
        );
        assert(fs.entries@[x].content@ == module.source@);
        assert(weight(x) == entry_imports(fs.entries@[x]));
    }
}

/// A graph whose modules are files of the view, each once, has no more
/// modules than the view has entries and no more imports than their texts
/// hold.
pub proof fn lemma_graph_fits_view(graph: DependencyGraph, roots: Seq<String>, fs: FileSystem)
    requires
        graph.wf(),
        all_files(fs, paths_of(graph.modules@)),
        graph.loaded_from(roots, fs),
    ensures
        graph.modules@.len() <= fs.entries@.len(),
        imports_between(graph.modules@, 0, graph.modules@.len() as int) <= view_imports(
            fs,
            fs.entries@.len() as int,
        ),
{
    assert forall|i: int, j: int| 0 <= i < j < paths_of(graph.modules@).len() implies paths_of(
        graph.modules@,
    )[i] != paths_of(graph.modules@)[j] by {
        assert(graph.modules@[i].path@ != graph.modules@[j].path@);
    }
    lemma_paths_fit(fs, paths_of(graph.modules@));
    lemma_imports_are_counted(graph, roots, fs, graph.modules@.len() as int);
    lemma_counted_within_view(
        fs,
        paths_of(graph.modules@),
        graph.modules@.len() as int,
        fs.entries@.len() as int,
        |k: int| entry_imports(fs.entries@[k]),
    );
}

/// What the statements import is what one of them imports.
proof fn lemma_listed_is_import(body: Seq<Statement>, n: int, t: int) -> (j: int)
    requires
        0 <= n <= body.len(),
        0 <= t < import_sources(body, n).len(),
    ensures
        0 <= j < n,
        body[j] is Import,
        body[j]->Import_1@ == import_sources(body, n)[t],
    decreases n,
{
    if body[n - 1] is Import && t == import_sources(body, n).len() - 1 {
        n - 1
    } else {
        lemma_listed_is_import(body, n - 1, t)
    }
}

/// How many imports a module has.
pub open spec fn import_count(m: JsModule) -> nat {
    import_sources(m.program.body@, m.program.body@.len() as int).len()
}

/// How many imports the modules at the places from `from` up to `to` have
/// together.
pub open spec fn imports_between(modules: Seq<JsModule>, from: int, to: int) -> nat
    decreases to - from,
{
    if from < 0 || to <= from || to > modules.len() {
        0
    } else {
        imports_between(modules, from, to - 1) + import_count(modules[to - 1])
    }
}

/// The imports of a stretch of modules are those of its two parts.
proof fn lemma_imports_split(modules: Seq<JsModule>, from: int, mid: int, to: int)
    requires
        0 <= from <= mid <= to <= modules.len(),
    ensures
        imports_between(modules, from, to) == imports_between(modules, from, mid)
            + imports_between(modules, mid, to),
    decreases to - mid,
{
    if mid < to {
        lemma_imports_split(modules, from, mid, to - 1);
    }
}

/// The imports of a stretch of modules do not depend on the modules after
/// it.
proof fn lemma_imports_kept(before: Seq<JsModule>, after: Seq<JsModule>, from: int, to: int)
    requires
        0 <= from <= to <= before.len() <= after.len(),
        forall|i: int| 0 <= i < before.len() ==> after[i] == before[i],
    ensures
        imports_between(after, from, to) == imports_between(before, from, to),
    decreases to - from,
{
    if from < to {
        lemma_imports_kept(before, after, from, to - 1);
    }
}

/// An import that a graph has, a graph that extends it has too.
proof fn lemma_closed_kept(before: DependencyGraph, after: DependencyGraph, i: int)
    requires
        after.extends(before),
        0 <= i < before.modules@.len(),
        before.closed(i),
    ensures
        after.closed(i),
{
    assert forall|k: int| 0 <= k < after.modules@[i].program.body@.len() implies match #[trigger] after.modules@[i].program.body@[k] {
        Statement::Import(_, source) => after.imports(i, source@),
        _ => true,
    } by {
        match before.modules@[i].program.body@[k] {
            Statement::Import(_, source) => {
                lemma_import_kept(before, after, i, source@);
            },
            _ => {},
        }
    }
}

/// An edge to a module with a given path stays when the graph grows.
proof fn lemma_import_kept(before: DependencyGraph, after: DependencyGraph, i: int, path: Seq<char>)
    requires
        after.extends(before),
        before.imports(i, path),
    ensures
        after.imports(i, path),
{
    let to = choose|to: int|
        0 <= to < before.modules@.len() && (#[trigger] before.modules@[to]).path@ == path
            && before.has_edge(i, to);
    let k = choose|k: int|
        0 <= k < graph_edges(before.graph).len() && (#[trigger] graph_edges(before.graph)[k]).0 == i
            && graph_edges(before.graph)[k].1 == to;
    assert(graph_edges(after.graph)[k] == graph_edges(before.graph)[k]);
    assert(after.has_edge(i, to));
    assert(after.modules@[to].path@ == path);
}

/// What a statement imports stands among what the statements import.
proof fn lemma_source_listed(body: Seq<Statement>, k: int, n: int)
    requires
        0 <= k < n <= body.len(),
        body[k] is Import,
    ensures
        import_sources(body, n).contains(body[k]->Import_1@),
    decreases n,
{
    if k == n - 1 {
        let listed = import_sources(body, n);
        assert(listed[listed.len() - 1] == body[k]->Import_1@);
    } else {
        lemma_source_listed(body, k, n - 1);
        let before = import_sources(body, n - 1);
        let t = choose|t: int| 0 <= t < before.len() && before[t] == body[k]->Import_1@;
        match body[n - 1] {
            Statement::Import(_, source) => {
                assert(import_sources(body, n)[t] == before[t]);
            },
            _ => {},
        }
    }
}

/// Adds the module at `path` and every module that it reaches to the graph,
/// unless the graph has it, and gives back its place. `path` is the
/// canonical path of the module.
fn parse_with_graph_recursive(
    context: &Context,
    fs: &FileSystem,
    path: &str,
    graph: &mut DependencyGraph,
) -> (r: Result<usize, BuildError>)
    requires
        old(graph).wf(),
        all_files(*fs, paths_of(old(graph).modules@)),
        old(graph).loaded_from(context.resolve_paths@, *fs),
        old(graph).edges_are_imports(),
        old(graph).edges_within_imports(),
    ensures
        final(graph).wf(),
        all_files(*fs, paths_of(final(graph).modules@)),
        final(graph).loaded_from(context.resolve_paths@, *fs),
        final(graph).edges_are_imports(),
        final(graph).edges_within_imports(),
        final(graph).extends(*old(graph)),
        match r {
            Ok(place) => {
                &&& place < final(graph).modules@.len()
                &&& place <= old(graph).modules@.len()
                &&& final(graph).modules@[place as int].path@ == path@
                &&& graph_edges(final(graph).graph).len() == graph_edges(old(graph).graph).len()
                    + imports_between(
                    final(graph).modules@,
                    old(graph).modules@.len() as int,
                    final(graph).modules@.len() as int,
                )
                &&& forall|i: int|
                    old(graph).modules@.len() <= i < final(graph).modules@.len() ==> reachable(
                        context.resolve_paths@,
                        *fs,
                        path@,
                        (#[trigger] final(graph).modules@[i]).path@,
                    )
                &&& forall|i: int|
                    old(graph).modules@.len() <= i < final(graph).modules@.len() ==> final(graph).closed(
                        i,
                    ) && loaded(
                        #[trigger] final(graph).modules@[i],
                        context.resolve_paths@,
                        *fs,
                    )
            },
            Err(e) => {
                &&& e matches BuildError::Unknown(unseen) ==> fs.entry(unseen@) is None
                &&& e == BuildError::TooLarge || fails_from(
                    context.resolve_paths@,
                    *fs,
                    path@,
                    e@,
                )
                &&& e == BuildError::TooLarge ==> graph_nodes(final(graph).graph).len()
                    >= u32::MAX || graph_edges(final(graph).graph).len() >= u32::MAX
            },
        },
    decreases fs.entries@.len() - old(graph).modules@.len(),
{
    let ghost roots = context.resolve_paths@;
    let (canonical, source) = match read_file(fs, path) {
        Ok(read) => read,
        Err(e) => {
            proof {
                lemma_fails_here(roots, *fs, path@, e@);
            }
            return Err(e);
        },
    };
    if !crate::text::equal(canonical.as_str(), path) {
        let e = BuildError::Unreadable(path.to_owned());
        proof {
            lemma_fails_here(roots, *fs, path@, e@);
        }
        return Err(e);
    }
    match graph.find(path) {
        Some(place) => {
            return Ok(place);
        },
        None => {},
    }
    let program = match crate::javascript::parser::parse(source.as_str()) {
        Ok(program) => program,
        Err(e) => {
            let e = BuildError::Syntax(path.to_owned(), e);
            proof {
                lemma_fails_here(roots, *fs, path@, e@);
            }
            return Err(e);
        },
    };
    let ghost parsed = program.body@;
    let ghost items = crate::javascript::statements::program(source@)->Ok_0;
    proof {
        lemma_imports_of_items(roots, *fs, path@, items, parsed, 0);
    }
    let mut module = JsModule { source, program, path: canonical };
    let dependencies = match resolve_paths_to_absolute(context, fs, &mut module) {
        Ok(found) => found,
        Err(e) => {
            proof {
                lemma_fails_here(roots, *fs, path@, e@);
            }
            return Err(e);
        },
    };
    if graph.node_count() >= u32::MAX as usize {
        return Err(BuildError::TooLarge);
    }
    let ghost added = module;
    proof {
        assert(local_failure(roots, *fs, path@) is None);
        assert(texts(dependencies@) == resolved_item_imports(roots, *fs, path@, items, 0)->Ok_0);
    }
    proof {
        let items = crate::javascript::statements::program(module.source@)->Ok_0;
        assert forall|k: int| 0 <= k < module.program.body@.len() implies describes_redirected(
            items[k],
            #[trigger] module.program.body@[k],
            roots,
            *fs,
            module.path@,
        ) by {
            assert(describes(items[k], parsed[k]));
            assert(redirected(parsed[k], module.program.body@[k], roots, *fs, module.path@));
        }
        assert(loaded(module, roots, *fs));
    }
    let place = graph.add_module(module);
    proof {
        assert(paths_of(graph.modules@) =~= paths_of(old(graph).modules@).push(path@));
        assert(graph.extends(*old(graph)));
        assert(graph.loaded_from(roots, *fs)) by {
            assert forall|k: int| 0 <= k < graph.modules@.len() implies loaded(
                #[trigger] graph.modules@[k],
                roots,
                *fs,
            ) by {
                if k < place {
                    assert(graph.modules@[k] == old(graph).modules@[k]);
                }
            }
        }
        assert(graph.edges_are_imports()) by {
            assert forall|k: int| 0 <= k < graph_edges(graph.graph).len() implies module_imports(
                graph.modules@[(#[trigger] graph_edges(graph.graph)[k]).0 as int],
                graph.modules@[graph_edges(graph.graph)[k].1 as int].path@,
            ) by {
                let e = graph_edges(old(graph).graph)[k];
                assert(graph.modules@[e.0 as int] == old(graph).modules@[e.0 as int]);
                assert(graph.modules@[e.1 as int] == old(graph).modules@[e.1 as int]);
            }
        }
        lemma_imports_kept(old(graph).modules@, graph.modules@, 0, place as int);
        lemma_imports_split(graph.modules@, 0, place as int, graph.modules@.len() as int);
        assert forall|t: int| 0 <= t < dependencies@.len() implies leads(
            roots,
            *fs,
            path@,
            #[trigger] dependencies@[t]@,
        ) by {
            assert(texts(dependencies@)[t] == dependencies@[t]@);
        }
        assert(reaches(roots, *fs, path@, path@, 0));
    }
    let mut i: usize = 0;
    while i < dependencies.len()
        invariant
            i <= dependencies@.len(),
            roots == context.resolve_paths@,
            graph.wf(),
            all_files(*fs, paths_of(graph.modules@)),
            graph.loaded_from(roots, *fs),
            graph.edges_are_imports(),
            graph.edges_within_imports(),
            graph_edges(old(graph).graph).len() <= imports_between(
                old(graph).modules@,
                0,
                place as int,
            ),
            graph.extends(*old(graph)),
            place == old(graph).modules@.len(),
            place < graph.modules@.len(),
            graph.modules@[place as int] == added,
            added.path@ == path@,
            texts(dependencies@) == import_sources(
                added.program.body@,
                added.program.body@.len() as int,
            ),
            forall|k: int|
                place < k < graph.modules@.len() ==> graph.closed(k) && loaded(
                    #[trigger] graph.modules@[k],
                    roots,
                    *fs,
                ),
            loaded(added, roots, *fs),
            forall|t: int|
                0 <= t < dependencies@.len() ==> leads(
                    roots,
                    *fs,
                    path@,
                    #[trigger] dependencies@[t]@,
                ),
            forall|t: int| 0 <= t < i ==> graph.imports(place as int, #[trigger] dependencies@[t]@),
            forall|k: int|
                place <= k < graph.modules@.len() ==> reachable(
                    roots,
                    *fs,
                    path@,
                    (#[trigger] graph.modules@[k]).path@,
                ),
            graph_edges(graph.graph).len() == graph_edges(old(graph).graph).len() + i
                + imports_between(graph.modules@, place + 1, graph.modules@.len() as int),
        decreases dependencies@.len() - i,
    {
        let ghost before = *graph;
        proof {
            lemma_paths_fit(*fs, paths_of(graph.modules@));
        }
        let target = match parse_with_graph_recursive(
            context,
            fs,
            dependencies[i].as_str(),
            graph,
        ) {
            Ok(target) => target,
            Err(e) => {
                proof {
                    if e != BuildError::TooLarge {
                        lemma_fails_through(roots, *fs, path@, dependencies@[i as int]@, e@);
                    }
                }
                return Err(e);
            },
        };
        if graph.edge_count() >= u32::MAX as usize {
            return Err(BuildError::TooLarge);
        }
        let ghost middle = *graph;
        graph.add_import(place, target);
        proof {
            lemma_imports_split(
                middle.modules@,
                place + 1,
                before.modules@.len() as int,
                middle.modules@.len() as int,
            );
            lemma_imports_kept(
                before.modules@,
                middle.modules@,
                place + 1,
                before.modules@.len() as int,
            );
            assert(graph.extends(middle));
            assert(graph.extends(before));
            assert(paths_of(graph.modules@) =~= paths_of(middle.modules@));
            assert(graph.edges_are_imports()) by {
                let last = graph_edges(middle.graph).len() as int;
                let j = lemma_listed_is_import(
                    added.program.body@,
                    added.program.body@.len() as int,
                    i as int,
                );
                assert(texts(dependencies@)[i as int] == dependencies@[i as int]@);
                assert(module_imports(added, graph.modules@[target as int].path@));
                assert forall|k: int|
                    0 <= k < graph_edges(graph.graph).len() implies module_imports(
                    graph.modules@[(#[trigger] graph_edges(graph.graph)[k]).0 as int],
                    graph.modules@[graph_edges(graph.graph)[k].1 as int].path@,
                ) by {
                    if k < last {
                        assert(graph_edges(graph.graph)[k] == graph_edges(middle.graph)[k]);
                    }
                }
            }
            assert(graph.edges_within_imports()) by {
                let len = graph.modules@.len() as int;
                lemma_imports_kept(old(graph).modules@, graph.modules@, 0, place as int);
                lemma_imports_split(graph.modules@, 0, place as int, len);
                lemma_imports_split(graph.modules@, place as int, place + 1, len);
                assert(imports_between(graph.modules@, place as int, place + 1) == import_count(
                    added,
                )) by {
                    assert(imports_between(graph.modules@, place as int, place as int) == 0);
                }
                assert(texts(dependencies@).len() == dependencies@.len());
            }
            assert forall|k: int| place <= k < graph.modules@.len() implies reachable(
                roots,
                *fs,
                path@,
                (#[trigger] graph.modules@[k]).path@,
            ) by {
                if k >= before.modules@.len() {
                    assert(reachable(
                        roots,
                        *fs,
                        dependencies@[i as int]@,
                        middle.modules@[k].path@,
                    ));
                    lemma_reachable_through(
                        roots,
                        *fs,
                        path@,
                        dependencies@[i as int]@,
                        graph.modules@[k].path@,
                    );
                } else {
                    assert(graph.modules@[k] == before.modules@[k]);
                }
            }
            assert forall|k: int| place < k < graph.modules@.len() implies graph.closed(k)
                && loaded(#[trigger] graph.modules@[k], roots, *fs) by {
                if k < before.modules@.len() {
                    lemma_closed_kept(before, *graph, k);
                } else {
                    lemma_closed_kept(middle, *graph, k);
                }
            }
            assert forall|t: int| 0 <= t < i + 1 implies graph.imports(
                place as int,
                #[trigger] dependencies@[t]@,
            ) by {
                if t < i {
                    lemma_import_kept(before, *graph, place as int, dependencies@[t]@);
                } else {
                    let last = graph_edges(middle.graph).len() as int;
                    assert(graph_edges(graph.graph)[last] == (place, target));
                    assert(graph.has_edge(place as int, target as int));
                    assert(graph.modules@[target as int].path@ == dependencies@[t]@);
                }
            }
        }
        i += 1;
    }
    proof {
        assert forall|k: int| 0 <= k < added.program.body@.len() implies match #[trigger] added.program.body@[k] {
            Statement::Import(_, source) => graph.imports(place as int, source@),
            _ => true,
        } by {
            match added.program.body@[k] {
                Statement::Import(_, source) => {
                    lemma_source_listed(added.program.body@, k, added.program.body@.len() as int);
                    let listed = texts(dependencies@);
                    let t = choose|t: int| 0 <= t < listed.len() && listed[t] == source@;
                    assert(dependencies@[t]@ == source@);
                },
                _ => {},
            }
        }
        assert(graph.closed(place as int));
        lemma_imports_split(
            graph.modules@,
            place as int,
            place + 1,
            graph.modules@.len() as int,
        );
        assert(imports_between(graph.modules@, place as int, place + 1) == import_count(added)) by {
            assert(imports_between(graph.modules@, place as int, place as int) == 0);
        }
        assert(texts(dependencies@).len() == dependencies@.len());
    }
    Ok(place)
}

/// A path among those that the imports of items lead to is where one of
/// the imports leads.
proof fn lemma_target_has_import(
    roots: Seq<String>,
    fs: FileSystem,
    importer: Seq<char>,
    items: Seq<Item>,
    from: int,
    target: Seq<char>,
) -> (k: int)
    requires
        0 <= from <= items.len(),
        resolved_item_imports(roots, fs, importer, items, from) is Ok,
        resolved_item_imports(roots, fs, importer, items, from)->Ok_0.contains(target),
    ensures
        from <= k < items.len(),
        items[k] is Import,
        resolve(roots, fs, importer, items[k]->Import_source) == Ok::<Seq<char>, Failure>(target),
    decreases items.len() - from,
{
    let found = resolved_item_imports(roots, fs, importer, items, from)->Ok_0;
    let t = choose|t: int| 0 <= t < found.len() && found[t] == target;
    if from >= items.len() {
        from
    } else {
        match items[from] {
            Item::Import { what, source } => {
                let rest = resolved_item_imports(roots, fs, importer, items, from + 1)->Ok_0;
                if t == 0 {
                    from
                } else {
                    assert(rest[t - 1] == target);
                    lemma_target_has_import(roots, fs, importer, items, from + 1, target)
                }
            },
            _ => lemma_target_has_import(roots, fs, importer, items, from + 1, target),
        }
    }
}

/// A graph that holds with every module the modules of its imports holds
/// every module that imports lead to from one of its modules.
pub proof fn lemma_reachable_modules_are_nodes(
    graph: DependencyGraph,
    roots: Seq<String>,
    fs: FileSystem,
    i: int,
    q: Seq<char>,
    n: nat,
) -> (j: int)
    requires
        graph.loaded_from(roots, fs),
        forall|k: int| 0 <= k < graph.modules@.len() ==> graph.closed(k),
        0 <= i < graph.modules@.len(),
        reaches(roots, fs, graph.modules@[i].path@, q, n),
    ensures
        0 <= j < graph.modules@.len(),
        graph.modules@[j].path@ == q,
    decreases n,
{
    if n == 0 {
        i
    } else {
        let module = graph.modules@[i];
        let p = module.path@;
        let m = choose|m: Seq<char>|
            #[trigger] leads(roots, fs, p, m) && reaches(roots, fs, m, q, (n - 1) as nat);
        assert(loaded(module, roots, fs));
        let items = program(module.source@)->Ok_0;
        let k = lemma_target_has_import(roots, fs, p, items, 0, m);
        assert(describes_redirected(items[k], module.program.body@[k], roots, fs, p));
        assert(graph.closed(i));
        let source = module.program.body@[k]->Import_1;
        assert(graph.imports(i, source@));
        let to = choose|to: int|
            0 <= to < graph.modules@.len() && (#[trigger] graph.modules@[to]).path@ == source@
                && graph.has_edge(i, to);
        lemma_reachable_modules_are_nodes(graph, roots, fs, to, q, (n - 1) as nat)
    }
}

/// In a graph that holds with every module the modules of its imports, an
/// order of nodes that holds with every node those that edges lead to from
/// there holds, with a module, every module that imports lead to from it.
pub proof fn lemma_order_holds_reached_modules(
    graph: DependencyGraph,
    roots: Seq<String>,
    fs: FileSystem,
    order: Seq<usize>,
    i: int,
    q: Seq<char>,
    n: nat,
) -> (j: int)
    requires
        graph.loaded_from(roots, fs),
        forall|k: int| 0 <= k < graph.modules@.len() ==> graph.closed(k),
        follows_edges(order, graph_edges(graph.graph)),
        0 <= i < graph.modules@.len(),
        order.contains(i as usize),
        reaches(roots, fs, graph.modules@[i].path@, q, n),
    ensures
        0 <= j < graph.modules@.len(),
        graph.modules@[j].path@ == q,
        order.contains(j as usize),
    decreases n,
{
    if n == 0 {
        i
    } else {
        let module = graph.modules@[i];
        let p = module.path@;
        let m = choose|m: Seq<char>|
            #[trigger] leads(roots, fs, p, m) && reaches(roots, fs, m, q, (n - 1) as nat);
        assert(loaded(module, roots, fs));
        let items = program(module.source@)->Ok_0;
        let k = lemma_target_has_import(roots, fs, p, items, 0, m);
        assert(describes_redirected(items[k], module.program.body@[k], roots, fs, p));
        assert(graph.closed(i));
        let source = module.program.body@[k]->Import_1;
        assert(graph.imports(i, source@));
        let to = choose|to: int|
            0 <= to < graph.modules@.len() && (#[trigger] graph.modules@[to]).path@ == source@
                && graph.has_edge(i, to);
        let e = choose|e: int|
            0 <= e < graph_edges(graph.graph).len() && (#[trigger] graph_edges(graph.graph)[e]).0
                == i && graph_edges(graph.graph)[e].1 == to;
        assert(order.contains(graph_edges(graph.graph)[e].0));
        assert(order.contains(graph_edges(graph.graph)[e].1));
        lemma_order_holds_reached_modules(graph, roots, fs, order, to, q, (n - 1) as nat)
    }
}

/// In a graph that is in order no two places hold modules with the same
/// path: a file has one node, by whatever specifiers imports name it.
pub proof fn lemma_one_node_per_path(graph: DependencyGraph, i: int, j: int)
    requires
        graph.wf(),
        0 <= i < graph.modules@.len(),
        0 <= j < graph.modules@.len(),
        graph.modules@[i].path@ == graph.modules@[j].path@,
    ensures
        i == j,
{
    if i < j {
        assert(graph.modules@[i].path@ != graph.modules@[j].path@);
    }
    if j < i {
        assert(graph.modules@[j].path@ != graph.modules@[i].path@);
    }
}

/// Builds the graph of the modules that the module at `input_path` reaches:
/// the module itself, and with every module those that it imports.
///
/// Every module stands in the graph once, under its canonical path, also
/// where imports lead to it by several ways or in a circle. Every import of
/// every module has an edge to the module that it names, and every edge
/// stands for an import. The build fails only with what is wrong with the
/// entry file or with a module that imports lead to from it, or where the
/// graph is full, which it is not before the view has as many entries, or
/// their texts as many imports, as 32 bits count; in every other case it
/// succeeds.
pub fn parse_dependency_graph(context: &Context, fs: &FileSystem, input_path: &str) -> (r: Result<
    (DependencyGraph, usize),
    BuildError,
>)
    ensures
        file_at(*fs, input_path@) is Ok && fs.entries@.len() < u32::MAX && view_imports(
            *fs,
            fs.entries@.len() as int,
        ) < u32::MAX && (forall|f: Failure|
            !fails_from(context.resolve_paths@, *fs, file_at(*fs, input_path@)->Ok_0.0, f))
            ==> r is Ok,
        match r {
            Ok((graph, entry)) => {
                &&& graph.wf()
                &&& entry == 0
                &&& graph.modules@.len() > 0
                &&& file_at(*fs, input_path@) is Ok
                &&& graph.modules@[0].path@ == file_at(*fs, input_path@)->Ok_0.0
                &&& graph.loaded_from(context.resolve_paths@, *fs)
                &&& forall|i: int| 0 <= i < graph.modules@.len() ==> graph.closed(i)
                &&& graph.edges_are_imports()
                &&& forall|i: int|
                    0 <= i < graph.modules@.len() ==> reachable(
                        context.resolve_paths@,
                        *fs,
                        graph.modules@[0].path@,
                        (#[trigger] graph.modules@[i]).path@,
                    )
                &&& graph_edges(graph.graph).len() == imports_between(
                    graph.modules@,
                    0,
                    graph.modules@.len() as int,
                )
            },
            Err(e) => {
                &&& file_at(*fs, input_path@) matches Err(f) ==> e@ == f
                &&& e == BuildError::TooLarge ==> fs.entries@.len() >= u32::MAX || view_imports(
                    *fs,
                    fs.entries@.len() as int,
                ) >= u32::MAX
                &&& e matches BuildError::Unknown(unseen) ==> fs.entry(unseen@) is None
                &&& file_at(*fs, input_path@) is Ok ==> e == BuildError::TooLarge || fails_from(
                    context.resolve_paths@,
                    *fs,
                    file_at(*fs, input_path@)->Ok_0.0,
                    e@,
                )
            },
        },
{
    let (canonical, _) = match read_file(fs, input_path) {
        Ok(read) => read,
        Err(e) => {
            return Err(e);
        },
    };
    let mut graph = DependencyGraph::new();
    let entry = match parse_with_graph_recursive(context, fs, canonical.as_str(), &mut graph) {
        Ok(entry) => entry,
        Err(e) => {
            proof {
                lemma_graph_fits_view(graph, context.resolve_paths@, *fs);
                assert(e != BuildError::TooLarge ==> fails_from(
                    context.resolve_paths@,
                    *fs,
                    file_at(*fs, input_path@)->Ok_0.0,
                    e@,
                ));
            }
            return Err(e);
        },
    };
    Ok((graph, entry))
}

} // verus!
