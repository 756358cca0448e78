//! Files of every kind as modules of a build: each kind has a reader that
//! gives the module that a file holds and the paths of what it depends on,
//! and the graph of a build can be made of modules of all kinds.

pub mod html;
pub mod javascript;
pub mod plaintext;

use vstd::prelude::*;
use crate::context::{texts, Context};
use crate::dependency::{
    all_files, counted_sum, lemma_counted_one_more, lemma_counted_within_view,
    lemma_new_path_not_counted, lemma_nothing_counted, lemma_paths_fit, weight_sum,
};
use crate::error::{BuildError, Failure};
use crate::graph::{
    add_edge, add_node, edge_count, graph_edges, graph_new, graph_nodes, node_count, Imports,
};
use crate::io_utils::{file_at, FileSystem};
use crate::javascript::statements::program;
use crate::modules::{module_type_of, Module, ModuleType};
use crate::parser::html::{one_after_the_other, resolve_references, resolved_references};
use crate::parser::javascript::{references_of, script_references};

verus! {

/// What a page refers to, as it was found by looking through the page: the
/// canonical path of the page, its style sheets and its scripts.
#[derive(Debug, Clone, PartialEq)]
pub struct Page {
    pub path: String,
    pub stylesheets: Vec<String>,
    pub scripts: Vec<String>,
}

/// The place of the first page at or after `from` whose path is `path`, or
/// the number of pages where there is none.
pub open spec fn find_page(pages: Seq<Page>, path: Seq<char>, from: int) -> int
    decreases pages.len() - from,
{
    if from < 0 || from >= pages.len() {
        pages.len() as int
    } else if pages[from].path@ == path {
        from
    } else {
        find_page(pages, path, from + 1)
    }
}

/// What the file at `path` with the text `content` refers to: a page to its
/// style sheets and then its scripts, as the first page of that path among
/// `pages` says; a script to what it imports or binds with `require`; any
/// other file to nothing.
pub open spec fn module_references(pages: Seq<Page>, path: Seq<char>, content: Seq<char>) -> Result<
    Seq<Seq<char>>,
    Failure,
> {
    match module_type_of(path) {
        ModuleType::Html => if find_page(pages, path, 0) < pages.len() {
            Ok(
                texts(pages[find_page(pages, path, 0)].stylesheets@) + texts(
                    pages[find_page(pages, path, 0)].scripts@,
                ),
            )
        } else {
            Err(Failure::Unscanned(path))
        },
        ModuleType::JavaScript => match program(content) {
            Err(e) => Err(Failure::Syntax(path, e)),
            Ok(items) => Ok(script_references(items, items.len() as int)),
        },
        _ => Ok(Seq::empty()),
    }
}

/// The canonical paths of what the module at `path` depends on, in order;
/// or what is wrong with the module: its file cannot be read, `path` is not
/// its canonical path, it cannot be looked through, or one of the things
/// that it refers to leads nowhere.
pub open spec fn module_targets(
    roots: Seq<String>,
    fs: FileSystem,
    pages: Seq<Page>,
    path: Seq<char>,
) -> Result<Seq<Seq<char>>, Failure> {
    match file_at(fs, path) {
        Err(f) => Err(f),
        Ok((canonical, content)) => if canonical != path {
            Err(Failure::Unreadable(path))
        } else {
            match module_references(pages, path, content) {
                Err(f) => Err(f),
                Ok(references) => resolved_references(roots, fs, path, references, 0),
            }
        },
    }
}

/// How many modules the module at `path` depends on.
pub open spec fn target_count(roots: Seq<String>, fs: FileSystem, pages: Seq<Page>, path: Seq<char>)
    -> nat {
    match module_targets(roots, fs, pages, path) {
        Ok(targets) => targets.len(),
        Err(_) => 0,
    }
}

/// How many modules the modules at the places from `from` up to `to` depend
/// on together.
pub open spec fn targets_between(
    modules: Seq<Module>,
    from: int,
    to: int,
    roots: Seq<String>,
    fs: FileSystem,
    pages: Seq<Page>,
) -> nat
    decreases to - from,
{
    if from < 0 || to <= from || to > modules.len() {
        0
    } else {
        targets_between(modules, from, to - 1, roots, fs, pages) + target_count(
            roots,
            fs,
            pages,
            modules[to - 1].path@,
        )
    }
}

/// How many modules the files of the view depend on together, each counted
/// as a module under its own path.
pub open spec fn view_targets(roots: Seq<String>, fs: FileSystem, pages: Seq<Page>) -> nat {
    weight_sum(
        |k: int| target_count(roots, fs, pages, fs.entries@[k].path@),
        fs.entries@.len() as int,
    )
}

/// Whether the module at `p` is in order and depends on the module at `q`.
pub open spec fn module_leads(
    roots: Seq<String>,
    fs: FileSystem,
    pages: Seq<Page>,
    p: Seq<char>,
    q: Seq<char>,
) -> bool {
    module_targets(roots, fs, pages, p) is Ok && module_targets(roots, fs, pages, p)->Ok_0.contains(
        q,
    )
}

/// Whether `n` steps, each from a module that is in order to one that it
/// depends on, lead from the module at `p` to the module at `q`.
pub open spec fn module_reaches(
    roots: Seq<String>,
    fs: FileSystem,
    pages: Seq<Page>,
    p: Seq<char>,
    q: Seq<char>,
    n: nat,
) -> bool
    decreases n,
{
    if n == 0 {
        p == q
    } else {
        exists|m: Seq<char>|
            #[trigger] module_leads(roots, fs, pages, p, m) && module_reaches(
                roots,
                fs,
                pages,
                m,
                q,
                (n - 1) as nat,
            )
    }
}

/// Whether `f` is what is wrong with a module that the module at `p`
/// depends on, directly or by way of others.
pub open spec fn module_fails_from(
    roots: Seq<String>,
    fs: FileSystem,
    pages: Seq<Page>,
    p: Seq<char>,
    f: Failure,
) -> bool {
    exists|q: Seq<char>, n: nat|
        #[trigger] module_reaches(roots, fs, pages, p, q, n) && module_targets(roots, fs, pages, q)
            == Err::<Seq<Seq<char>>, Failure>(f)
}

/// The paths of modules, in order.
pub open spec fn module_paths(modules: Seq<Module>) -> Seq<Seq<char>> {
    Seq::new(modules.len(), |i: int| modules[i].path@)
}

/// The modules of a build, of every kind, and the graph of what depends on
/// what. The node at place `i` of the graph stands for the module at place
/// `i`.
pub struct ModuleGraph {
    pub modules: Vec<Module>,
    pub graph: Imports,
}

impl ModuleGraph {
    /// Whether the graph is in order: it has a node for each module, which
    /// carries the module's place; every edge joins two of its nodes; and no
    /// two modules have the same path.
    pub open spec fn wf(&self) -> bool {
        &&& graph_nodes(self.graph).len() == self.modules@.len()
        &&& forall|i: int|
            0 <= i < self.modules@.len() ==> #[trigger] graph_nodes(self.graph)[i] == i
        &&& forall|k: int|
            0 <= k < graph_edges(self.graph).len() ==> (#[trigger] graph_edges(self.graph)[k]).0
                < self.modules@.len() && graph_edges(self.graph)[k].1 < self.modules@.len()
        &&& forall|i: int, j: int|
            0 <= i < j < self.modules@.len() ==> (#[trigger] self.modules@[i]).path@
                != (#[trigger] self.modules@[j]).path@
    }

    /// Whether the graph has an edge from the node at `from` to a node whose
    /// module has the path `path`.
    pub open spec fn depends(&self, from: int, path: Seq<char>) -> bool {
        exists|k: int|
            0 <= k < graph_edges(self.graph).len() && (#[trigger] graph_edges(self.graph)[k]).0
                == from && self.modules@[graph_edges(self.graph)[k].1 as int].path@ == path
    }

    /// Whether every module is what the file at its path holds, of the kind
    /// that its path says, and in order.
    pub open spec fn held(&self, roots: Seq<String>, fs: FileSystem, pages: Seq<Page>) -> bool {
        forall|i: int|
            0 <= i < self.modules@.len() ==> {
                let m = #[trigger] self.modules@[i];
                &&& file_at(fs, m.path@) == Ok::<(Seq<char>, Seq<char>), Failure>(
                    (m.path@, m.content@),
                )
                &&& m.mtype == module_type_of(m.path@)
                &&& module_targets(roots, fs, pages, m.path@) is Ok
            }
    }

    /// Whether everything that the module at `i` depends on has its module
    /// and its edge in the graph.
    pub open spec fn closed(&self, i: int, roots: Seq<String>, fs: FileSystem, pages: Seq<Page>)
        -> bool {
        forall|t: int|
            0 <= t < module_targets(roots, fs, pages, self.modules@[i].path@)->Ok_0.len()
                ==> self.depends(
                i,
                #[trigger] module_targets(roots, fs, pages, self.modules@[i].path@)->Ok_0[t],
            )
    }

    /// Whether every edge stands for a dependency: the module at its source
    /// depends on the path of the module at its target.
    pub open spec fn edges_are_targets(
        &self,
        roots: Seq<String>,
        fs: FileSystem,
        pages: Seq<Page>,
    ) -> bool {
        forall|k: int|
            0 <= k < graph_edges(self.graph).len() ==> module_leads(
                roots,
                fs,
                pages,
                self.modules@[(#[trigger] graph_edges(self.graph)[k]).0 as int].path@,
                self.modules@[graph_edges(self.graph)[k].1 as int].path@,
            )
    }

    /// Whether the graph has no more edges than its modules depend on
    /// modules.
    pub open spec fn edges_within_targets(
        &self,
        roots: Seq<String>,
        fs: FileSystem,
        pages: Seq<Page>,
    ) -> bool {
        graph_edges(self.graph).len() <= targets_between(
            self.modules@,
            0,
            self.modules@.len() as int,
            roots,
            fs,
            pages,
        )
    }

    /// Whether the graph holds all of `old` at the same places.
    pub open spec fn extends(&self, old: ModuleGraph) -> bool {
        &&& old.modules@.len() <= self.modules@.len()
        &&& forall|i: int| 0 <= i < old.modules@.len() ==> self.modules@[i] == old.modules@[i]
        &&& graph_edges(old.graph).len() <= graph_edges(self.graph).len()
        &&& forall|k: int|
            0 <= k < graph_edges(old.graph).len() ==> graph_edges(self.graph)[k] == graph_edges(
                old.graph,
            )[k]
    }

    /// A graph without modules.
    pub fn new() -> (g: ModuleGraph)
        ensures
            g.wf(),
            g.modules@.len() == 0,
            graph_edges(g.graph).len() == 0,
    {
        ModuleGraph { modules: Vec::new(), graph: graph_new() }
    }

    /// The number of nodes, which in a graph that is in order is the number
    /// of modules.
    pub fn node_count(&self) -> (n: usize)
        ensures
            n == graph_nodes(self.graph).len(),
            self.wf() ==> n == self.modules@.len(),
    {
        node_count(&self.graph)
    }

    /// The number of edges.
    pub fn edge_count(&self) -> (n: usize)
        ensures
            n == graph_edges(self.graph).len(),
    {
        edge_count(&self.graph)
    }

    /// The place of the module with the path `path`, if the graph has it.
    pub fn find(&self, path: &str) -> (r: Option<usize>)
        ensures
            match r {
                Some(i) => i < self.modules@.len() && self.modules@[i as int].path@ == path@,
                None => forall|i: int|
                    0 <= i < self.modules@.len() ==> (#[trigger] self.modules@[i]).path@ != path@,
            },
    {
        let mut i: usize = 0;
        while i < self.modules.len()
            invariant
                i <= self.modules@.len(),
                forall|k: int| 0 <= k < i ==> (#[trigger] self.modules@[k]).path@ != path@,
            decreases self.modules@.len() - i,
        {
            if crate::text::equal(self.modules[i].path.as_str(), path) {
                return Some(i);
            }
            i += 1;
        }
        None
    }

    fn add_module(&mut self, module: Module) -> (place: usize)
        requires
            old(self).wf(),
            old(self).modules@.len() < u32::MAX,
            forall|i: int|
                0 <= i < old(self).modules@.len() ==> (#[trigger] old(self).modules@[i]).path@
                    != module.path@,
        ensures
            final(self).wf(),
            final(self).modules@ == old(self).modules@.push(module),
            graph_edges(final(self).graph) == graph_edges(old(self).graph),
            place == old(self).modules@.len(),
    {
        let place = self.modules.len();
        self.modules.push(module);
        add_node(&mut self.graph, place);
        place
    }

    fn add_dependency(&mut self, from: usize, to: usize)
        requires
            old(self).wf(),
            from < old(self).modules@.len(),
            to < old(self).modules@.len(),
            graph_edges(old(self).graph).len() < u32::MAX,
        ensures
            final(self).wf(),
            final(self).modules@ == old(self).modules@,
            graph_edges(final(self).graph) == graph_edges(old(self).graph).push((from, to)),
    {
        add_edge(&mut self.graph, from, to, 0);
    }
}

/// Finds what the pages say of the page at `path`.
fn lookup_page<'a>(pages: &'a Vec<Page>, path: &str) -> (r: Option<&'a Page>)
    ensures
        match r {
            Some(p) => find_page(pages@, path@, 0) < pages@.len() && *p == pages@[find_page(
                pages@,
                path@,
                0,
            )],
            None => find_page(pages@, path@, 0) == pages@.len(),
        },
{
    let mut i: usize = 0;
    while i < pages.len()
        invariant
            i <= pages@.len(),
            find_page(pages@, path@, 0) == find_page(pages@, path@, i as int),
        decreases pages@.len() - i,
    {
        if crate::text::equal(pages[i].path.as_str(), path) {
            return Some(&pages[i]);
        }
        i += 1;
    }
    None
}

/// Finds the canonical paths of what a module depends on.
fn dependencies_of(context: &Context, fs: &FileSystem, pages: &Vec<Page>, module: &Module) -> (r:
    Result<Vec<String>, BuildError>)
    requires
        file_at(*fs, module.path@) == Ok::<(Seq<char>, Seq<char>), Failure>(
            (module.path@, module.content@),
        ),
        module.mtype == module_type_of(module.path@),
    ensures
        match r {
            Ok(targets) => module_targets(context.resolve_paths@, *fs, pages@, module.path@) == Ok::<
                Seq<Seq<char>>,
                Failure,
            >(texts(targets@)),
            Err(e) => module_targets(context.resolve_paths@, *fs, pages@, module.path@) == Err::<
                Seq<Seq<char>>,
                Failure,
            >(e@) && e != BuildError::TooLarge,
        },
{
    let references = match module.mtype {
        ModuleType::Html => match lookup_page(pages, module.path.as_str()) {
            Some(page) => one_after_the_other(&page.stylesheets, &page.scripts),
            None => {
                return Err(BuildError::Unscanned(module.path.clone()));
            },
        },
        ModuleType::JavaScript => match crate::javascript::parser::parse(module.content.as_str()) {
            Err(e) => {
                return Err(BuildError::Syntax(module.path.clone(), e));
            },
            Ok(tree) => references_of(&tree, Ghost(program(module.content@)->Ok_0)),
        },
        _ => {
            let none: Vec<String> = Vec::new();
            proof {
                assert(texts(none@) =~= Seq::<Seq<char>>::empty());
            }
            none
        },
    };
    resolve_references(context, fs, module.path.as_str(), &references)
}

/// The dependencies of a stretch of modules are those of its two parts.
proof fn lemma_targets_split(
    modules: Seq<Module>,
    from: int,
    mid: int,
    to: int,
    roots: Seq<String>,
    fs: FileSystem,
    pages: Seq<Page>,
)
    requires
        0 <= from <= mid <= to <= modules.len(),
    ensures
        targets_between(modules, from, to, roots, fs, pages) == targets_between(
            modules,
            from,
            mid,
            roots,
            fs,
            pages,
        ) + targets_between(modules, mid, to, roots, fs, pages),
    decreases to - mid,
{
    if mid < to {
        lemma_targets_split(modules, from, mid, to - 1, roots, fs, pages);
    }
}

/// The dependencies of a stretch of modules do not depend on the modules
/// after it.
proof fn lemma_targets_kept(
    before: Seq<Module>,
    after: Seq<Module>,
    from: int,
    to: int,
    roots: Seq<String>,
    fs: FileSystem,
    pages: Seq<Page>,
)
    requires
        0 <= from <= to <= before.len() <= after.len(),
        forall|i: int| 0 <= i < before.len() ==> after[i] == before[i],
    ensures
        targets_between(after, from, to, roots, fs, pages) == targets_between(
            before,
            from,
            to,
            roots,
            fs,
            pages,
        ),
    decreases to - from,
{
    if from < to {
        lemma_targets_kept(before, after, from, to - 1, roots, fs, pages);
    }
}

/// A dependency that a graph has, a graph that extends it has too.
proof fn lemma_depends_kept(before: ModuleGraph, after: ModuleGraph, i: int, path: Seq<char>)
    requires
        before.wf(),
        after.extends(before),
        before.depends(i, path),
    ensures
        after.depends(i, path),
{
    let k = choose|k: int|
        0 <= k < graph_edges(before.graph).len() && (#[trigger] graph_edges(before.graph)[k]).0 == i
            && before.modules@[graph_edges(before.graph)[k].1 as int].path@ == path;
    assert(graph_edges(after.graph)[k] == graph_edges(before.graph)[k]);
    assert(after.modules@[graph_edges(before.graph)[k].1 as int]
        == before.modules@[graph_edges(before.graph)[k].1 as int]);
}

/// What is wrong with a module is wrong with what leads from it.
proof fn lemma_module_fails_here(
    roots: Seq<String>,
    fs: FileSystem,
    pages: Seq<Page>,
    p: Seq<char>,
    f: Failure,
)
    requires
        module_targets(roots, fs, pages, p) == Err::<Seq<Seq<char>>, Failure>(f),
    ensures
        module_fails_from(roots, fs, pages, p, f),
{
    assert(module_reaches(roots, fs, pages, p, p, 0));
}

/// What is wrong with what leads from a module that `p` depends on is wrong
/// with what leads from `p`.
proof fn lemma_module_fails_through(
    roots: Seq<String>,
    fs: FileSystem,
    pages: Seq<Page>,
    p: Seq<char>,
    m: Seq<char>,
    f: Failure,
)
    requires
        module_leads(roots, fs, pages, p, m),
        module_fails_from(roots, fs, pages, m, f),
    ensures
        module_fails_from(roots, fs, pages, p, f),
{
    let (q, n) = choose|q: Seq<char>, n: nat|
        #[trigger] module_reaches(roots, fs, pages, m, q, n) && module_targets(roots, fs, pages, q)
            == Err::<Seq<Seq<char>>, Failure>(f);
    assert(module_reaches(roots, fs, pages, p, q, n + 1)) by {
        assert(module_leads(roots, fs, pages, p, m) && module_reaches(
            roots,
            fs,
            pages,
            m,
            q,
            ((n + 1) - 1) as nat,
        ));
    }
}

/// The modules of a graph depend on as many modules as the entries that
/// count for their paths.
proof fn lemma_targets_are_counted(
    graph: ModuleGraph,
    roots: Seq<String>,
    fs: FileSystem,
    pages: Seq<Page>,
    m: int,
)
    requires
        graph.wf(),
        all_files(fs, module_paths(graph.modules@)),
        0 <= m <= graph.modules@.len(),
    ensures
        targets_between(graph.modules@, 0, m, roots, fs, pages) == counted_sum(
            fs,
            module_paths(graph.modules@),
            m,
            fs.entries@.len() as int,
            |k: int| target_count(roots, fs, pages, fs.entries@[k].path@),
        ),
    decreases m,
{
    let paths = module_paths(graph.modules@);
    let n = fs.entries@.len() as int;
    let weight = |k: int| target_count(roots, fs, pages, fs.entries@[k].path@);
    if m == 0 {
        lemma_nothing_counted(fs, paths, n, weight);
    } else {
        lemma_targets_are_counted(graph, roots, fs, pages, m - 1);
        assert forall|i: int| 0 <= i < m - 1 implies #[trigger] paths[i] != paths[m - 1] by {
            assert(graph.modules@[i].path@ != graph.modules@[m - 1].path@);
        }
        lemma_new_path_not_counted(fs, paths, m - 1);
        lemma_counted_one_more(fs, paths, m - 1, n, weight);
        let x = crate::io_utils::find_entry(fs.entries@, paths[m - 1], 0);
        assert(weight(x) == target_count(roots, fs, pages, paths[m - 1]));
    }
}

/// A graph whose modules are files of the view, each once, has no more
/// modules than the view has entries and no more dependencies than the
/// files of the view have.
pub proof fn lemma_module_graph_fits_view(
    graph: ModuleGraph,
    roots: Seq<String>,
    fs: FileSystem,
    pages: Seq<Page>,
)
    requires
        graph.wf(),
        all_files(fs, module_paths(graph.modules@)),
    ensures
        graph.modules@.len() <= fs.entries@.len(),
        targets_between(graph.modules@, 0, graph.modules@.len() as int, roots, fs, pages)
            <= view_targets(roots, fs, pages),
{
    let paths = module_paths(graph.modules@);
    assert forall|i: int, j: int| 0 <= i < j < paths.len() implies paths[i] != paths[j] by {
        assert(graph.modules@[i].path@ != graph.modules@[j].path@);
    }
    lemma_paths_fit(fs, paths);
    lemma_targets_are_counted(graph, roots, fs, pages, graph.modules@.len() as int);
    lemma_counted_within_view(
        fs,
        paths,
        graph.modules@.len() as int,
        fs.entries@.len() as int,
        |k: int| target_count(roots, fs, pages, fs.entries@[k].path@),
    );
}

/// Adds the module at `path` and every module that it depends on, directly
/// or by way of others, to the graph, unless the graph has it, and gives
/// back its place. `path` is the canonical path of the module.
fn parse_with_graph_recursive(
    context: &Context,
    fs: &FileSystem,
    pages: &Vec<Page>,
    path: &str,
    graph: &mut ModuleGraph,
) -> (r: Result<usize, BuildError>)
    requires
        old(graph).wf(),
        all_files(*fs, module_paths(old(graph).modules@)),
        old(graph).held(context.resolve_paths@, *fs, pages@),
        old(graph).edges_are_targets(context.resolve_paths@, *fs, pages@),
        old(graph).edges_within_targets(context.resolve_paths@, *fs, pages@),
    ensures
        final(graph).wf(),
        all_files(*fs, module_paths(final(graph).modules@)),
        final(graph).held(context.resolve_paths@, *fs, pages@),
        final(graph).edges_are_targets(context.resolve_paths@, *fs, pages@),
        final(graph).edges_within_targets(context.resolve_paths@, *fs, pages@),
        final(graph).extends(*old(graph)),
        match r {
            Ok(place) => {
                &&& place < final(graph).modules@.len()
                &&& place <= old(graph).modules@.len()
                &&& final(graph).modules@[place as int].path@ == path@
                &&& graph_edges(final(graph).graph).len() == graph_edges(old(graph).graph).len()
                    + targets_between(
                    final(graph).modules@,
                    old(graph).modules@.len() as int,
                    final(graph).modules@.len() as int,
                    context.resolve_paths@,
                    *fs,
                    pages@,
                )
                &&& forall|i: int|
                    old(graph).modules@.len() <= i < final(graph).modules@.len() ==> final(graph).closed(
                        i,
                        context.resolve_paths@,
                        *fs,
                        pages@,
                    )
            },
            Err(e) => {
                &&& e == BuildError::TooLarge || module_fails_from(
                    context.resolve_paths@,
                    *fs,
                    pages@,
                    path@,
                    e@,
                )
                &&& e == BuildError::TooLarge ==> graph_nodes(final(graph).graph).len()
                    >= u32::MAX || graph_edges(final(graph).graph).len() >= u32::MAX
            },
        },
    decreases fs.entries@.len() - old(graph).modules@.len(),
{
    let ghost roots = context.resolve_paths@;
    let module = match Module::from_path(fs, path) {
        Ok(module) => module,
        Err(e) => {
            proof {
                lemma_module_fails_here(roots, *fs, pages@, path@, e@);
            }
            return Err(e);
        },
    };
    if !crate::text::equal(module.path.as_str(), path) {
        let e = BuildError::Unreadable(path.to_owned());
        proof {
            lemma_module_fails_here(roots, *fs, pages@, path@, e@);
        }
        return Err(e);
    }
    match graph.find(path) {
        Some(place) => {
            return Ok(place);
        },
        None => {},
    }
    let dependencies = match dependencies_of(context, fs, pages, &module) {
        Ok(found) => found,
        Err(e) => {
            proof {
                lemma_module_fails_here(roots, *fs, pages@, path@, e@);
            }
            return Err(e);
        },
    };
    if graph.node_count() >= u32::MAX as usize {
        return Err(BuildError::TooLarge);
    }
    let ghost targets = texts(dependencies@);
    let place = graph.add_module(module);
    proof {
        assert(module_paths(graph.modules@) =~= module_paths(old(graph).modules@).push(path@));
        assert(graph.extends(*old(graph)));
        assert(graph.held(roots, *fs, pages@)) by {
            assert forall|k: int| 0 <= k < graph.modules@.len() implies {
                let m = #[trigger] graph.modules@[k];
                &&& file_at(*fs, m.path@) == Ok::<(Seq<char>, Seq<char>), Failure>(
                    (m.path@, m.content@),
                )
                &&& m.mtype == module_type_of(m.path@)
                &&& module_targets(roots, *fs, pages@, m.path@) is Ok
            } by {
                if k < place {
                    assert(graph.modules@[k] == old(graph).modules@[k]);
                }
            }
        }
        assert(graph.edges_are_targets(roots, *fs, pages@)) by {
            assert forall|k: int| 0 <= k < graph_edges(graph.graph).len() implies module_leads(
                roots,
                *fs,
                pages@,
                graph.modules@[(#[trigger] graph_edges(graph.graph)[k]).0 as int].path@,
                graph.modules@[graph_edges(graph.graph)[k].1 as int].path@,
            ) by {
                let e = graph_edges(old(graph).graph)[k];
                assert(graph.modules@[e.0 as int] == old(graph).modules@[e.0 as int]);
                assert(graph.modules@[e.1 as int] == old(graph).modules@[e.1 as int]);
            }
        }
        lemma_targets_kept(old(graph).modules@, graph.modules@, 0, place as int, roots, *fs, pages@);
        lemma_targets_split(
            graph.modules@,
            0,
            place as int,
            graph.modules@.len() as int,
            roots,
            *fs,
            pages@,
        );
    }
    let mut i: usize = 0;
    while i < dependencies.len()
        invariant
            i <= dependencies@.len(),
            roots == context.resolve_paths@,
            targets == texts(dependencies@),
            module_targets(roots, *fs, pages@, path@) == Ok::<Seq<Seq<char>>, Failure>(targets),
            graph.wf(),
            all_files(*fs, module_paths(graph.modules@)),
            graph.held(roots, *fs, pages@),
            graph.edges_are_targets(roots, *fs, pages@),
            graph.edges_within_targets(roots, *fs, pages@),
            graph_edges(old(graph).graph).len() <= targets_between(
                old(graph).modules@,
                0,
                place as int,
                roots,
                *fs,
                pages@,
            ),
            graph.extends(*old(graph)),
            place == old(graph).modules@.len(),
            place < graph.modules@.len(),
            graph.modules@[place as int].path@ == path@,
            forall|k: int|
                place < k < graph.modules@.len() ==> graph.closed(k, roots, *fs, pages@),
            forall|t: int| 0 <= t < i ==> graph.depends(place as int, #[trigger] targets[t]),
            graph_edges(graph.graph).len() == graph_edges(old(graph).graph).len() + i
                + targets_between(
                graph.modules@,
                place + 1,
                graph.modules@.len() as int,
                roots,
                *fs,
                pages@,
            ),
        decreases dependencies@.len() - i,
    {
        let ghost before = *graph;
        proof {
            lemma_paths_fit(*fs, module_paths(graph.modules@));
            assert(targets[i as int] == dependencies@[i as int]@);
            assert(module_leads(roots, *fs, pages@, path@, dependencies@[i as int]@));
        }
        let target = match parse_with_graph_recursive(
            context,
            fs,
            pages,
            dependencies[i].as_str(),
            graph,
        ) {
            Ok(target) => target,
            Err(e) => {
                proof {
                    if e != BuildError::TooLarge {
                        lemma_module_fails_through(
                            roots,
                            *fs,
                            pages@,
                            path@,
                            dependencies@[i as int]@,
                            e@,
                        );
                    }
                }
                return Err(e);
            },
        };
        if graph.edge_count() >= u32::MAX as usize {
            return Err(BuildError::TooLarge);
        }
        let ghost middle = *graph;
        graph.add_dependency(place, target);
        proof {
            let len = graph.modules@.len() as int;
            lemma_targets_split(
                middle.modules@,
                place + 1,
                before.modules@.len() as int,
                middle.modules@.len() as int,
                roots,
                *fs,
                pages@,
            );
            lemma_targets_kept(
                before.modules@,
                middle.modules@,
                place + 1,
                before.modules@.len() as int,
                roots,
                *fs,
                pages@,
            );
            assert(graph.extends(middle));
            assert(graph.extends(before));
            assert(module_paths(graph.modules@) =~= module_paths(middle.modules@));
            let last = graph_edges(middle.graph).len() as int;
            assert(graph_edges(graph.graph)[last] == (place, target));
            assert(graph.edges_are_targets(roots, *fs, pages@)) by {
                assert forall|k: int|
                    0 <= k < graph_edges(graph.graph).len() implies module_leads(
                    roots,
                    *fs,
                    pages@,
                    graph.modules@[(#[trigger] graph_edges(graph.graph)[k]).0 as int].path@,
                    graph.modules@[graph_edges(graph.graph)[k].1 as int].path@,
                ) by {
                    if k < last {
                        assert(graph_edges(graph.graph)[k] == graph_edges(middle.graph)[k]);
                    }
                }
            }
            assert(graph.edges_within_targets(roots, *fs, pages@)) by {
                lemma_targets_kept(
                    old(graph).modules@,
                    graph.modules@,
                    0,
                    place as int,
                    roots,
                    *fs,
                    pages@,
                );
                lemma_targets_split(graph.modules@, 0, place as int, len, roots, *fs, pages@);
                lemma_targets_split(
                    graph.modules@,
                    place as int,
                    place + 1,
                    len,
                    roots,
                    *fs,
                    pages@,
                );
                assert(targets_between(
                    graph.modules@,
                    place as int,
                    place + 1,
                    roots,
                    *fs,
                    pages@,
                ) == targets.len()) by {
                    assert(targets_between(
                        graph.modules@,
                        place as int,
                        place as int,
                        roots,
                        *fs,
                        pages@,
                    ) == 0);
                }
            }
            assert forall|k: int| place < k < graph.modules@.len() implies graph.closed(
                k,
                roots,
                *fs,
                pages@,
            ) by {
                let wanted = module_targets(roots, *fs, pages@, graph.modules@[k].path@)->Ok_0;
                assert forall|t: int| 0 <= t < wanted.len() implies graph.depends(
                    k,
                    #[trigger] wanted[t],
                ) by {
                    if k < before.modules@.len() {
                        assert(before.closed(k, roots, *fs, pages@));
                        assert(before.depends(k, wanted[t]));
                        lemma_depends_kept(before, *graph, k, wanted[t]);
                    } else {
                        assert(middle.closed(k, roots, *fs, pages@));
                        assert(middle.depends(k, wanted[t]));
                        lemma_depends_kept(middle, *graph, k, wanted[t]);
                    }
                }
            }
            assert forall|t: int| 0 <= t < i + 1 implies graph.depends(
                place as int,
                #[trigger] targets[t],
            ) by {
                if t < i {
                    lemma_depends_kept(before, *graph, place as int, targets[t]);
                } else {
                    assert(graph.modules@[target as int].path@ == targets[t]);
                }
            }
        }
        i += 1;
    }
    proof {
        assert(graph.closed(place as int, roots, *fs, pages@));
        lemma_targets_split(
            graph.modules@,
            place as int,
            place + 1,
            graph.modules@.len() as int,
            roots,
            *fs,
            pages@,
        );
        assert(targets_between(graph.modules@, place as int, place + 1, roots, *fs, pages@)
            == targets.len()) by {
            assert(targets_between(graph.modules@, place as int, place as int, roots, *fs, pages@)
                == 0);
        }
    }
    Ok(place)
}

/// Builds the graph of the modules, of every kind, that the module at
/// `input_path` depends on, directly or by way of others.
///
/// Every module stands in the graph once, under its canonical path. A page
/// depends on its style sheets and scripts, as `pages` says, a script on
/// what it imports, any other file on nothing. Every dependency of every
/// module has an edge, and every edge is a dependency. The build fails only
/// with what is wrong with the entry file or with a module that it depends
/// on, or where the graph is full.
pub fn parse_module_graph(
    context: &Context,
    fs: &FileSystem,
    pages: &Vec<Page>,
    input_path: &str,
) -> (r: Result<(ModuleGraph, usize), BuildError>)
    ensures
        file_at(*fs, input_path@) is Ok && fs.entries@.len() < u32::MAX && view_targets(
            context.resolve_paths@,
            *fs,
            pages@,
        ) < u32::MAX && (forall|f: Failure|
            !module_fails_from(
                context.resolve_paths@,
                *fs,
                pages@,
                file_at(*fs, input_path@)->Ok_0.0,
                f,
            )) ==> r is Ok,
        match r {
            Ok((graph, entry)) => {
                &&& graph.wf()
                &&& entry == 0
                &&& graph.modules@.len() > 0
                &&& file_at(*fs, input_path@) is Ok
                &&& graph.modules@[0].path@ == file_at(*fs, input_path@)->Ok_0.0
                &&& graph.held(context.resolve_paths@, *fs, pages@)
                &&& forall|i: int|
                    0 <= i < graph.modules@.len() ==> graph.closed(
                        i,
                        context.resolve_paths@,
                        *fs,
                        pages@,
                    )
                &&& graph.edges_are_targets(context.resolve_paths@, *fs, pages@)
                &&& graph_edges(graph.graph).len() == targets_between(
                    graph.modules@,
                    0,
                    graph.modules@.len() as int,
                    context.resolve_paths@,
                    *fs,
                    pages@,
                )
            },
            Err(e) => {
                &&& file_at(*fs, input_path@) matches Err(f) ==> e@ == f
                &&& e == BuildError::TooLarge ==> fs.entries@.len() >= u32::MAX || view_targets(
                    context.resolve_paths@,
                    *fs,
                    pages@,
                ) >= u32::MAX
                &&& file_at(*fs, input_path@) is Ok ==> e == BuildError::TooLarge
                    || module_fails_from(
                    context.resolve_paths@,
                    *fs,
                    pages@,
                    file_at(*fs, input_path@)->Ok_0.0,
                    e@,
                )
            },
        },
{
    let first = match Module::from_path(fs, input_path) {
        Ok(module) => module,
        Err(e) => {
            return Err(e);
        },
    };
    let mut graph = ModuleGraph::new();
    let entry = match parse_with_graph_recursive(
        context,
        fs,
        pages,
        first.path.as_str(),
        &mut graph,
    ) {
        Ok(entry) => entry,
        Err(e) => {
            proof {
                lemma_module_graph_fits_view(graph, context.resolve_paths@, *fs, pages@);
                assert(e != BuildError::TooLarge ==> module_fails_from(
                    context.resolve_paths@,
                    *fs,
                    pages@,
                    file_at(*fs, input_path@)->Ok_0.0,
                    e@,
                ));
            }
            return Err(e);
        },
    };
    Ok((graph, entry))
}

} // verus!
