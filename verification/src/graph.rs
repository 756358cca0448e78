//! The directed graph that holds which module imports which, kept in a
//! `petgraph` graph whose nodes carry the number of their module, and the
//! walk through it, a `petgraph` depth-first search.
//!
//! What the graph and the walk hold is known to the rest of the library
//! only by what the functions of this file say of it.

use vstd::prelude::*;
use vstd::set_lib::{lemma_int_range, lemma_len_subset, lemma_map_size, set_int_range};

verus! {

#[verifier::external_type_specification]
#[verifier::external_body]
#[verifier::reject_recursive_types(N)]
#[verifier::reject_recursive_types(E)]
#[verifier::reject_recursive_types(Ty)]
#[verifier::reject_recursive_types(Ix)]
pub struct ExGraph<N, E, Ty, Ix>(petgraph::graph::Graph<N, E, Ty, Ix>);

#[verifier::external_type_specification]
#[verifier::external_body]
pub struct ExDirected(petgraph::Directed);

/// The graph of imports: a node for each module, an edge for each import.
pub type Imports = petgraph::graph::Graph<usize, usize, petgraph::Directed, u32>;

#[verifier::external_type_specification]
#[verifier::external_body]
#[verifier::reject_recursive_types(N)]
#[verifier::reject_recursive_types(VM)]
pub struct ExDfs<N, VM>(petgraph::visit::Dfs<N, VM>);

#[verifier::external_type_specification]
#[verifier::external_body]
#[verifier::reject_recursive_types(Ix)]
pub struct ExNodeIndex<Ix>(petgraph::graph::NodeIndex<Ix>);

#[verifier::external_type_specification]
#[verifier::external_body]
pub struct ExFixedBitSet(fixedbitset::FixedBitSet);

/// A walk through a graph of imports, depth first: it holds the nodes it
/// has yet to look at and the set of those it has found.
pub type Walk = petgraph::visit::Dfs<petgraph::graph::NodeIndex<u32>, fixedbitset::FixedBitSet>;

/// What the nodes of a graph carry, in the order in which they were added.
pub uninterp spec fn graph_nodes(g: Imports) -> Seq<usize>;

/// The edges of a graph, each as the places of the node it leaves and of the
/// node it reaches, in the order in which they were added.
pub uninterp spec fn graph_edges(g: Imports) -> Seq<(usize, usize)>;

/// The nodes that a walk through `g` has yet to hand out, in the order in
/// which it will.
pub uninterp spec fn walk_rest(w: Walk, g: Imports) -> Seq<usize>;

/// The nodes that a walk through `g` from the node at `start` hands out,
/// in order.
pub uninterp spec fn walk_order(g: Imports, start: usize) -> Seq<usize>;

/// The number of nodes of the graph that a walk was started on.
pub uninterp spec fn walk_size(w: Walk) -> nat;

/// Whether no number stands twice in `order`.
pub open spec fn distinct(order: Seq<usize>) -> bool {
    forall|i: int, j: int| 0 <= i < j < order.len() ==> order[i] != order[j]
}

/// Makes a graph with `petgraph::graph::Graph::new`: one without nodes or
/// edges.
#[verifier::external_body]
pub(crate) fn graph_new() -> (g: Imports)
    ensures
        graph_nodes(g) == Seq::<usize>::empty(),
        graph_edges(g) == Seq::<(usize, usize)>::empty(),
{
    petgraph::graph::Graph::new()
}

/// Counts the nodes with `Graph::node_count`.
#[verifier::external_body]
pub(crate) fn node_count(g: &Imports) -> (n: usize)
    ensures
        n == graph_nodes(*g).len(),
{
    g.node_count()
}

/// Counts the edges with `Graph::edge_count`.
#[verifier::external_body]
pub(crate) fn edge_count(g: &Imports) -> (n: usize)
    ensures
        n == graph_edges(*g).len(),
{
    g.edge_count()
}

/// Adds a node with `Graph::add_node`, which puts it after the nodes that
/// are there. The graph numbers its nodes in 32 bits and panics once it
/// holds as many as that allows, so it must hold fewer.
#[verifier::external_body]
pub(crate) fn add_node(g: &mut Imports, weight: usize)
    requires
        graph_nodes(*old(g)).len() < u32::MAX,
    ensures
        graph_nodes(*final(g)) == graph_nodes(*old(g)).push(weight),
        graph_edges(*final(g)) == graph_edges(*old(g)),
{
    g.add_node(weight);
}

/// Adds an edge with `Graph::add_edge`, which puts it after the edges that
/// are there, also where the same edge is there already. It panics where a
/// node does not exist or the graph holds as many edges as 32 bits allow.
#[verifier::external_body]
pub(crate) fn add_edge(g: &mut Imports, from: usize, to: usize, weight: usize)
    requires
        from < graph_nodes(*old(g)).len(),
        to < graph_nodes(*old(g)).len(),
        graph_edges(*old(g)).len() < u32::MAX,
    ensures
        graph_edges(*final(g)) == graph_edges(*old(g)).push((from, to)),
        graph_nodes(*final(g)) == graph_nodes(*old(g)),
{
    g.add_edge(petgraph::graph::NodeIndex::new(from), petgraph::graph::NodeIndex::new(to), weight);
}

/// Whether `order` holds, with every node that it holds, the nodes that the
/// edges lead to from there.
pub open spec fn follows_edges(order: Seq<usize>, edges: Seq<(usize, usize)>) -> bool {
    forall|k: int|
        0 <= k < edges.len() && order.contains((#[trigger] edges[k]).0) ==> order.contains(
            edges[k].1,
        )
}

/// Whether an edge leads to the node at `i` of `order` from a node before
/// it.
pub open spec fn comes_by_edge(order: Seq<usize>, edges: Seq<(usize, usize)>, i: int) -> bool {
    exists|k: int, j: int|
        0 <= k < edges.len() && 0 <= j < i && (#[trigger] edges[k]).0 == #[trigger] order[j]
            && edges[k].1 == order[i]
}

/// Whether every node of `order` but the first is one that an edge leads to
/// from a node before it.
pub open spec fn comes_by_edges(order: Seq<usize>, edges: Seq<(usize, usize)>) -> bool {
    forall|i: int| 0 < i < order.len() ==> #[trigger] comes_by_edge(order, edges, i)
}

/// Starts a walk with `petgraph::visit::Dfs::new`. The walk hands out
/// `start` first, then every node that edges lead to from a node it has
/// handed out and no other, each node once, and nothing that is no node of
/// the graph.
#[verifier::external_body]
pub(crate) fn walk_new(g: &Imports, start: usize) -> (w: Walk)
    requires
        start < graph_nodes(*g).len(),
    ensures
        walk_size(w) == graph_nodes(*g).len(),
        walk_rest(w, *g) == walk_order(*g, start),
        follows_edges(walk_rest(w, *g), graph_edges(*g)),
        walk_rest(w, *g).len() > 0,
        walk_rest(w, *g)[0] == start,
        distinct(walk_rest(w, *g)),
        comes_by_edges(walk_rest(w, *g), graph_edges(*g)),
        forall|i: int|
            0 <= i < walk_rest(w, *g).len() ==> #[trigger] walk_rest(w, *g)[i] < graph_nodes(
                *g,
            ).len(),
{
    petgraph::visit::Dfs::new(g, petgraph::graph::NodeIndex::new(start))
}

/// Takes the next node of a walk with `Dfs::next`, or nothing when the walk
/// is over. The set of found nodes has the size of the graph that the walk
/// was started on, and the call panics on a node beyond it.
#[verifier::external_body]
pub(crate) fn walk_next(w: &mut Walk, g: &Imports) -> (node: Option<usize>)
    requires
        graph_nodes(*g).len() <= walk_size(*old(w)),
    ensures
        walk_size(*final(w)) == walk_size(*old(w)),
        match node {
            Some(n) => walk_rest(*old(w), *g).len() > 0 && n == walk_rest(*old(w), *g)[0]
                && walk_rest(*final(w), *g) == walk_rest(*old(w), *g).drop_first(),
            None => walk_rest(*old(w), *g).len() == 0,
        },
{
    match w.next(g) {
        Some(n) => Some(n.index()),
        None => None,
    }
}

/// Whether edges lead from the node `from` to the node `to` in `steps`
/// steps.
pub open spec fn edges_lead(edges: Seq<(usize, usize)>, from: usize, to: usize, steps: nat) -> bool
    decreases steps,
{
    if steps == 0 {
        from == to
    } else {
        exists|k: int|
            0 <= k < edges.len() && (#[trigger] edges[k]).1 == to && edges_lead(
                edges,
                from,
                edges[k].0,
                (steps - 1) as nat,
            )
    }
}

/// Whether edges lead from the node `from` to the node `to`.
pub open spec fn edges_reach(edges: Seq<(usize, usize)>, from: usize, to: usize) -> bool {
    exists|steps: nat| edges_lead(edges, from, to, steps)
}

/// Whether `order` is a walk from `start` through a graph of `n` nodes with
/// the edges `edges`: it begins with `start`, holds nodes of the graph, none
/// twice, and with every node those that edges lead to from there, and
/// every node after the first comes by an edge from a node before it.
pub open spec fn is_walk(order: Seq<usize>, edges: Seq<(usize, usize)>, start: usize, n: nat) -> bool {
    &&& order.len() > 0
    &&& order[0] == start
    &&& distinct(order)
    &&& forall|i: int| 0 <= i < order.len() ==> (#[trigger] order[i]) < n
    &&& follows_edges(order, edges)
    &&& comes_by_edges(order, edges)
}

/// A walk holds every node that edges lead to from its start.
proof fn lemma_walk_holds_reached(
    order: Seq<usize>,
    edges: Seq<(usize, usize)>,
    start: usize,
    node: usize,
    steps: nat,
)
    requires
        order.len() > 0,
        order[0] == start,
        follows_edges(order, edges),
        edges_lead(edges, start, node, steps),
    ensures
        order.contains(node),
    decreases steps,
{
    if steps == 0 {
        assert(order[0] == node);
    } else {
        let k = choose|k: int|
            0 <= k < edges.len() && (#[trigger] edges[k]).1 == node && edges_lead(
                edges,
                start,
                edges[k].0,
                (steps - 1) as nat,
            );
        lemma_walk_holds_reached(order, edges, start, edges[k].0, (steps - 1) as nat);
    }
}

/// Edges lead from the start of a walk to every node that it holds.
proof fn lemma_walk_nodes_are_reached(order: Seq<usize>, edges: Seq<(usize, usize)>, i: int)
    requires
        comes_by_edges(order, edges),
        0 <= i < order.len(),
    ensures
        edges_reach(edges, order[0], order[i]),
    decreases i,
{
    if i == 0 {
        assert(edges_lead(edges, order[0], order[0], 0));
    } else {
        assert(comes_by_edge(order, edges, i));
        let (k, j) = choose|k: int, j: int|
            0 <= k < edges.len() && 0 <= j < i && (#[trigger] edges[k]).0 == #[trigger] order[j]
                && edges[k].1 == order[i];
        lemma_walk_nodes_are_reached(order, edges, j);
        let steps = choose|steps: nat| edges_lead(edges, order[0], order[j], steps);
        assert(edges_lead(edges, order[0], order[i], steps + 1));
    }
}

/// A walk holds the nodes that edges lead to from its start, and no other.
pub proof fn lemma_walk_holds_what_edges_reach(
    order: Seq<usize>,
    edges: Seq<(usize, usize)>,
    start: usize,
    n: nat,
    node: usize,
)
    requires
        is_walk(order, edges, start, n),
    ensures
        order.contains(node) <==> edges_reach(edges, start, node),
{
    if order.contains(node) {
        let i = choose|i: int| 0 <= i < order.len() && order[i] == node;
        lemma_walk_nodes_are_reached(order, edges, i);
    }
    if edges_reach(edges, start, node) {
        let steps = choose|steps: nat| edges_lead(edges, start, node, steps);
        lemma_walk_holds_reached(order, edges, start, node, steps);
    }
}

/// A walk through a graph is no longer than the graph has nodes.
pub proof fn lemma_walk_fits(order: Seq<usize>, edges: Seq<(usize, usize)>, start: usize, n: nat)
    requires
        is_walk(order, edges, start, n),
    ensures
        order.len() <= n,
{
    let f = |i: int| order[i] as int;
    let x = set_int_range(0, order.len() as int);
    let y = x.map(f);
    lemma_int_range(0, order.len() as int);
    lemma_int_range(0, n as int);
    assert(vstd::relations::injective_on(f, x)) by {
        assert forall|a: int, b: int| x.contains(a) && x.contains(b) && #[trigger] f(a)
            == #[trigger] f(b) implies a == b by {
            if a < b {
                assert(order[a] != order[b]);
            }
            if b < a {
                assert(order[b] != order[a]);
            }
        }
    }
    lemma_map_size(x, y, f);
    assert(y.subset_of(set_int_range(0, n as int))) by {
        assert forall|k: int| y.contains(k) implies set_int_range(0, n as int).contains(k) by {
            let i = choose|i: int| x.contains(i) && f(i) == k;
            assert(order[i] < n);
        }
    }
    lemma_len_subset(y, set_int_range(0, n as int));
}

} // verus!
