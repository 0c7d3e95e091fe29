//! The two outside collections behind a dependency graph, with what is taken
//! on trust of each: `petgraph`'s directed graph, which holds the edges between
//! node indices, and `bimap`'s two-way hash map, which ties each label to its
//! node index.

use bimap::BiHashMap;
use petgraph::graph::{DiGraph, NodeIndex};
use petgraph::visit::{DfsPostOrder, Walker};
use vstd::prelude::*;

verus! {

/// The most nodes a graph can hold: its indices are 32 bits wide and the last
/// one is kept as an end marker.
pub const MAX_NODES: usize = 0xffff_ffff;

/// The most edges a graph can hold, for the same reason.
pub const MAX_EDGES: usize = 0xffff_ffff;

/// Declares `petgraph::Directed`, a type whose inside stays hidden.
#[verifier::external_type_specification]
#[verifier::external_body]
pub struct ExDirected(petgraph::Directed);

/// Declares `petgraph::graph::Graph`, a type whose inside stays hidden.
#[verifier::external_type_specification]
#[verifier::external_body]
#[verifier::reject_recursive_types(N)]
#[verifier::reject_recursive_types(E)]
#[verifier::reject_recursive_types(Ty)]
#[verifier::reject_recursive_types(Ix)]
pub struct ExGraph<N, E, Ty, Ix>(petgraph::graph::Graph<N, E, Ty, Ix>);

/// Declares `bimap::BiHashMap`, a type whose inside stays hidden.
#[verifier::external_type_specification]
#[verifier::external_body]
#[verifier::reject_recursive_types(L)]
#[verifier::reject_recursive_types(R)]
#[verifier::reject_recursive_types(LS)]
#[verifier::reject_recursive_types(RS)]
pub struct ExBiHashMap<L, R, LS, RS>(bimap::BiHashMap<L, R, LS, RS>);

/// The edges of a graph as (source, target) pairs of node indices, in the
/// order in which they were added.
pub uninterp spec fn graph_edges(g: DiGraph<(), ()>) -> Seq<(usize, usize)>;

/// The number of nodes of a graph; its node indices are the numbers below it.
pub uninterp spec fn graph_node_count(g: DiGraph<(), ()>) -> nat;

/// The pairs of a two-way map, as a map from left value to right value.
pub uninterp spec fn bimap_pairs(m: BiHashMap<u64, usize>) -> Map<u64, usize>;

/// The nodes that a depth-first search from `start` emits, in post-order.
pub uninterp spec fn dfs_post_order(edges: Seq<(usize, usize)>, node_count: nat, start: usize) -> Seq<usize>;

/// There is an edge from `a` to `b`.
pub open spec fn has_edge(edges: Seq<(usize, usize)>, a: usize, b: usize) -> bool {
    exists|k: int| 0 <= k < edges.len() && #[trigger] edges[k] == (a, b)
}

/// The targets of the edges that leave `a`, in the order in which the edges
/// were added.
pub open spec fn out_targets(edges: Seq<(usize, usize)>, a: usize) -> Seq<usize>
    decreases edges.len(),
{
    if edges.len() == 0 {
        Seq::empty()
    } else if edges.last().0 == a {
        out_targets(edges.drop_last(), a).push(edges.last().1)
    } else {
        out_targets(edges.drop_last(), a)
    }
}

/// `p` is a walk: a nonempty sequence of nodes, each joined to the next by an edge.
pub open spec fn is_walk(edges: Seq<(usize, usize)>, p: Seq<usize>) -> bool {
    &&& p.len() >= 1
    &&& forall|i: int| 0 <= i < p.len() - 1 ==> has_edge(edges, #[trigger] p[i], p[i + 1])
}

/// `b` can be reached from `a` along zero or more edges.
pub open spec fn reaches(edges: Seq<(usize, usize)>, a: usize, b: usize) -> bool {
    exists|p: Seq<usize>| is_walk(edges, p) && #[trigger] p.first() == a && p.last() == b
}

/// `b` can be reached from `a` along one or more edges.
pub open spec fn reaches_strictly(edges: Seq<(usize, usize)>, a: usize, b: usize) -> bool {
    exists|p: Seq<usize>| is_walk(edges, p) && p.len() >= 2 && #[trigger] p.first() == a && p.last() == b
}

/// `order` lists every node once, and every edge leads from a node to one
/// listed later.
pub open spec fn is_topological_order(edges: Seq<(usize, usize)>, node_count: nat, order: Seq<usize>) -> bool {
    &&& order.len() == node_count
    &&& order.no_duplicates()
    &&& forall|a: usize| a < node_count ==> order.contains(a)
    &&& forall|i: int, j: int| 0 <= i <= j < order.len() ==> !has_edge(edges, #[trigger] order[j], #[trigger] order[i])
}

/// `visited` holds exactly the nodes that can be reached from `start`, each once.
pub open spec fn covers_reachable(edges: Seq<(usize, usize)>, start: usize, visited: Seq<usize>) -> bool {
    &&& visited.no_duplicates()
    &&& forall|v: usize| visited.contains(v) <==> reaches(edges, start, v)
}

/// A two-way map without pairs.
pub open spec fn no_pairs() -> Map<u64, usize> {
    Map::empty()
}

/// What a two-way map holds after the pair (`left`, `right`) is inserted: the
/// pair itself, and every earlier pair that shares neither side with it.
pub open spec fn inserted(pairs: Map<u64, usize>, left: u64, right: usize) -> Map<u64, usize> {
    Map::new(
        |k: u64| k == left || (pairs.contains_key(k) && pairs[k] != right),
        |k: u64| if k == left { right } else { pairs[k] },
    )
}

/// `petgraph::graph::Graph::new`: a graph without nodes or edges.
#[verifier::external_body]
pub(crate) fn graph_new() -> (g: DiGraph<(), ()>)
    ensures
        graph_edges(g) == Seq::<(usize, usize)>::empty(),
        graph_node_count(g) == 0,
{
    DiGraph::new()
}

/// `petgraph::graph::Graph::add_node`: the new node gets the next free index
/// and the edges stay. The call panics on a full graph, which `requires` leaves out.
#[verifier::external_body]
pub(crate) fn graph_add_node(g: &mut DiGraph<(), ()>) -> (idx: usize)
    requires
        graph_node_count(*old(g)) < MAX_NODES,
    ensures
        idx == graph_node_count(*old(g)),
        graph_node_count(*final(g)) == graph_node_count(*old(g)) + 1,
        graph_edges(*final(g)) == graph_edges(*old(g)),
{
    g.add_node(()).index()
}

/// `petgraph::graph::Graph::add_edge`: the edge is added after the others and
/// the nodes stay. The call panics on an index that is no node and on a full
/// graph, which `requires` leaves out.
#[verifier::external_body]
pub(crate) fn graph_add_edge(g: &mut DiGraph<(), ()>, a: usize, b: usize)
    requires
        a < graph_node_count(*old(g)),
        b < graph_node_count(*old(g)),
        graph_edges(*old(g)).len() < MAX_EDGES,
    ensures
        graph_edges(*final(g)) == graph_edges(*old(g)).push((a, b)),
        graph_node_count(*final(g)) == graph_node_count(*old(g)),
{
    g.add_edge(NodeIndex::new(a), NodeIndex::new(b), ());
}

/// `petgraph::graph::Graph::node_count`.
#[verifier::external_body]
pub(crate) fn graph_count_nodes(g: &DiGraph<(), ()>) -> (n: usize)
    ensures
        n == graph_node_count(*g),
{
    g.node_count()
}

/// `petgraph::graph::Graph::edge_count`.
#[verifier::external_body]
pub(crate) fn graph_count_edges(g: &DiGraph<(), ()>) -> (n: usize)
    ensures
        n == graph_edges(*g).len(),
{
    g.edge_count()
}

/// `petgraph::graph::Graph::neighbors_directed` with `Outgoing`: the targets of
/// the edges that leave `a`, the most recently added edge first.
#[verifier::external_body]
pub(crate) fn graph_neighbors(g: &DiGraph<(), ()>, a: usize) -> (out: Vec<usize>)
    requires
        a < graph_node_count(*g),
    ensures
        out@ == out_targets(graph_edges(*g), a).reverse(),
{
    g.neighbors_directed(NodeIndex::new(a), petgraph::Direction::Outgoing).map(|n| n.index()).collect()
}

/// `petgraph::algo::toposort`: on a graph without a cycle, the nodes in an
/// order in which every edge leads forward; otherwise a node that lies on a cycle.
#[verifier::external_body]
pub(crate) fn graph_toposort(g: &DiGraph<(), ()>) -> (res: Result<Vec<usize>, usize>)
    ensures
        match res {
            Ok(order) => is_topological_order(graph_edges(*g), graph_node_count(*g), order@),
            Err(node) => node < graph_node_count(*g) && reaches_strictly(graph_edges(*g), node, node),
        },
{
    match petgraph::algo::toposort(g, None) {
        Ok(order) => Ok(order.into_iter().map(|n| n.index()).collect()),
        Err(cycle) => Err(cycle.node_id().index()),
    }
}

/// `petgraph::visit::DfsPostOrder`, run from `start` to its end: the order is
/// a function of the graph and the start alone, and it holds each node that can
/// be reached from `start` once and no other node. The search panics on a start
/// that is no node, which `requires` leaves out.
#[verifier::external_body]
pub(crate) fn graph_dfs_post_order(g: &DiGraph<(), ()>, start: usize) -> (out: Vec<usize>)
    requires
        start < graph_node_count(*g),
    ensures
        out@ == dfs_post_order(graph_edges(*g), graph_node_count(*g), start),
        covers_reachable(graph_edges(*g), start, out@),
{
    DfsPostOrder::new(g, NodeIndex::new(start)).iter(g).map(|n| n.index()).collect()
}

/// `bimap::BiHashMap::new`: a map without pairs.
#[verifier::external_body]
pub(crate) fn bimap_new() -> (m: BiHashMap<u64, usize>)
    ensures
        bimap_pairs(m) == no_pairs(),
{
    BiHashMap::new()
}

/// `bimap::BiHashMap::insert`: the pair is added, and every pair that held the
/// same left or the same right value leaves.
#[verifier::external_body]
pub(crate) fn bimap_insert(m: &mut BiHashMap<u64, usize>, left: u64, right: usize)
    ensures
        bimap_pairs(*final(m)) == inserted(bimap_pairs(*old(m)), left, right),
{
    let _ = m.insert(left, right);
}

/// `bimap::BiHashMap::get_by_left`: the right value paired with `left`, if any.
#[verifier::external_body]
pub(crate) fn bimap_get_by_left(m: &BiHashMap<u64, usize>, left: u64) -> (r: Option<usize>)
    ensures
        r == (if bimap_pairs(*m).contains_key(left) {
            Some(bimap_pairs(*m)[left])
        } else {
            None
        }),
{
    m.get_by_left(&left).copied()
}

/// `bimap::BiHashMap::get_by_right`: a left value paired with `right`, if any.
#[verifier::external_body]
pub(crate) fn bimap_get_by_right(m: &BiHashMap<u64, usize>, right: usize) -> (r: Option<u64>)
    ensures
        match r {
            Some(left) => bimap_pairs(*m).contains_key(left) && bimap_pairs(*m)[left] == right,
            None => forall|k: u64| bimap_pairs(*m).contains_key(k) ==> bimap_pairs(*m)[k] != right,
        },
{
    m.get_by_right(&right).copied()
}

/// `bimap::BiHashMap::iter`, keeping the left values: every left value once,
/// in an order that is not fixed.
#[verifier::external_body]
pub(crate) fn bimap_left_values(m: &BiHashMap<u64, usize>) -> (out: Vec<u64>)
    ensures
        out@.no_duplicates(),
        forall|k: u64| out@.contains(k) <==> bimap_pairs(*m).contains_key(k),
{
    m.iter().map(|(left, _)| *left).collect()
}

} // verus!
