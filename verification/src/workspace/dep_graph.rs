//! A dependency graph over `u64` labels, grown from a set of roots by asking
//! for the dependencies of each label in turn, and refused when it holds a cycle.

use super::graph_growth::{
    growing, lemma_grow_edge, lemma_grow_end, lemma_grow_finish, lemma_grow_node, lemma_grow_pop, lemma_grow_start,
    lemma_overflow_edges, lemma_overflow_nodes, lemma_reachable_step, lemma_root_reachable,
};
use super::graph_model::{
    edges_in_range, index_model, label_deps, graph_deps, lemma_cycle_label, lemma_depends_iff, lemma_no_label_cycle,
    lemma_out_targets_edges, lemma_sorted_acyclic, lemma_walk_to_labels, lemma_without, lemma_without_push, without,
};
use super::graph_store::{
    bimap_get_by_left, bimap_get_by_right, bimap_insert, bimap_left_values, bimap_new, bimap_pairs,
    dfs_post_order, graph_add_edge, graph_add_node, graph_count_edges, graph_count_nodes,
    graph_dfs_post_order, graph_edges, graph_neighbors, graph_new, graph_node_count, graph_toposort,
    has_edge, is_walk, out_targets, reaches, reaches_strictly, MAX_EDGES, MAX_NODES,
};
use bimap::BiHashMap;
use petgraph::graph::DiGraph;
use vstd::prelude::*;
use vstd::string::StringExecFns;

verus! {

/// `p` is a walk from `x` to `y` under `deps`: it starts at `x`, ends at `y`,
/// and each label on it but the last has the next one among its dependencies.
pub open spec fn label_walk(deps: spec_fn(u64) -> Seq<u64>, p: Seq<u64>, x: u64, y: u64) -> bool {
    &&& p.len() >= 1
    &&& p.first() == x
    &&& p.last() == y
    &&& forall|i: int| 0 <= i < p.len() - 1 ==> deps(#[trigger] p[i]).contains(p[i + 1])
}

/// `y` is reached from `x` in zero or more steps.
pub open spec fn leads_to(deps: spec_fn(u64) -> Seq<u64>, x: u64, y: u64) -> bool {
    exists|p: Seq<u64>| label_walk(deps, p, x, y)
}

/// `y` is reached from `x` in one or more steps: `x` depends on `y`.
pub open spec fn depends(deps: spec_fn(u64) -> Seq<u64>, x: u64, y: u64) -> bool {
    exists|p: Seq<u64>| label_walk(deps, p, x, y) && p.len() >= 2
}

/// `x` is a root or is reached from one.
pub open spec fn reachable_from(deps: spec_fn(u64) -> Seq<u64>, roots: Seq<u64>, x: u64) -> bool {
    exists|k: int| 0 <= k < roots.len() && leads_to(deps, #[trigger] roots[k], x)
}

/// The number of dependencies that the labels of `s` have, all together.
pub open spec fn edge_total(deps: spec_fn(u64) -> Seq<u64>, s: Seq<u64>) -> nat
    decreases s.len(),
{
    if s.len() == 0 {
        0
    } else {
        edge_total(deps, s.drop_last()) + deps(s.last()).len()
    }
}

/// `s` names distinct reachable labels that are too many for a graph, or whose
/// dependencies are.
pub open spec fn overflows(deps: spec_fn(u64) -> Seq<u64>, roots: Seq<u64>, s: Seq<u64>) -> bool {
    &&& s.no_duplicates()
    &&& forall|i: int| 0 <= i < s.len() ==> reachable_from(deps, roots, #[trigger] s[i])
    &&& (s.len() > MAX_NODES || edge_total(deps, s) > MAX_EDGES)
}

/// What is reachable from the roots does not fit into a graph.
pub open spec fn exceeds_capacity(deps: spec_fn(u64) -> Seq<u64>, roots: Seq<u64>) -> bool {
    exists|s: Seq<u64>| overflows(deps, roots, s)
}

/// The dependencies that `f` gives for each label.
pub open spec fn deps_of<F: Fn(&u64) -> Vec<u64>>(f: F) -> spec_fn(u64) -> Seq<u64> {
    |x: u64| (choose|r: Vec<u64>| call_ensures(f, (&x,), r))@
}

/// `f` gives one answer for each label.
pub open spec fn is_function<F: Fn(&u64) -> Vec<u64>>(f: F) -> bool {
    forall|x: u64, r: Vec<u64>| call_ensures(f, (&x,), r) ==> r@ == deps_of(f)(x)
}

/// Where a graph's dependencies come from: for each label its immediate
/// dependencies, and a name to report it by.
pub trait DepSource {
    /// The source can be asked for the dependencies of `x`.
    spec fn admits(&self, x: u64) -> bool;

    /// The immediate dependencies of `x`.
    spec fn spec_deps(&self, x: u64) -> Seq<u64>;

    /// The source can be asked for a name of `x`.
    spec fn can_name(&self, x: u64) -> bool;

    /// `name` is a name that the source may give for `x`.
    spec fn names(&self, x: u64, name: String) -> bool;

    fn deps_for(&self, x: &u64) -> (r: Vec<u64>)
        requires
            self.admits(*x),
        ensures
            r@ == self.spec_deps(*x),
    ;

    fn name_for(&self, x: &u64) -> (r: String)
        requires
            self.can_name(*x),
        ensures
            self.names(*x, r),
    ;
}

/// The immediate dependencies that a source gives for each label.
pub open spec fn source_deps<D: DepSource>(source: &D) -> spec_fn(u64) -> Seq<u64> {
    |x: u64| source.spec_deps(x)
}

/// A source made of two functions: one that names a label and one that gives
/// its dependencies.
pub struct FnSource<S: Fn(&u64) -> String, F: Fn(&u64) -> Vec<u64>> {
    pub stringify: S,
    pub compute_deps: F,
}

impl<S: Fn(&u64) -> String, F: Fn(&u64) -> Vec<u64>> DepSource for FnSource<S, F> {
    open spec fn admits(&self, x: u64) -> bool {
        &&& is_function(self.compute_deps)
        &&& call_requires(self.compute_deps, (&x,))
    }

    open spec fn can_name(&self, x: u64) -> bool {
        call_requires(self.stringify, (&x,))
    }

    open spec fn spec_deps(&self, x: u64) -> Seq<u64> {
        deps_of(self.compute_deps)(x)
    }

    open spec fn names(&self, x: u64, name: String) -> bool {
        call_ensures(self.stringify, (&x,), name)
    }

    fn deps_for(&self, x: &u64) -> (r: Vec<u64>) {
        (self.compute_deps)(x)
    }

    fn name_for(&self, x: &u64) -> (r: String) {
        (self.stringify)(x)
    }
}

/// A source that is written down: the dependencies and the name of the
/// label `i` stand at position `i`; a label beyond the table has no
/// dependencies and an empty name.
pub struct TableSource {
    pub deps: Vec<Vec<u64>>,
    pub names: Vec<String>,
}

impl DepSource for TableSource {
    open spec fn admits(&self, x: u64) -> bool {
        true
    }

    open spec fn can_name(&self, x: u64) -> bool {
        true
    }

    open spec fn spec_deps(&self, x: u64) -> Seq<u64> {
        if x < self.deps@.len() {
            self.deps@[x as int]@
        } else {
            Seq::empty()
        }
    }

    open spec fn names(&self, x: u64, name: String) -> bool {
        name@ == (if x < self.names@.len() {
            self.names@[x as int]@
        } else {
            Seq::empty()
        })
    }

    fn deps_for(&self, x: &u64) -> (r: Vec<u64>) {
        let mut out: Vec<u64> = Vec::new();
        if *x < self.deps.len() as u64 {
            let row = &self.deps[*x as usize];
            let mut i: usize = 0;
            while i < row.len()
                invariant
                    i <= row.len(),
                    out@ == row@.take(i as int),
                decreases row.len() - i,
            {
                out.push(row[i]);
                proof {
                    assert(row@.take(i + 1) =~= row@.take(i as int).push(row@[i as int]));
                }
                i += 1;
            }
            proof {
                assert(row@.take(row@.len() as int) =~= row@);
            }
        }
        out
    }

    fn name_for(&self, x: &u64) -> (r: String) {
        if *x < self.names.len() as u64 {
            self.names[*x as usize].clone()
        } else {
            String::new()
        }
    }
}

/// Why a graph could not be built.
#[derive(Clone, PartialEq, Eq, Debug)]
pub enum GraphError {
    /// `node` depends on itself; `name` is what the caller's stringifier made of it.
    CycleDetected { node: u64, name: String },
    /// What is reachable from the roots holds more labels or dependencies than
    /// a graph has indices for.
    TooLarge,
}

/// Generic data structure for representing dependencies between labels.
pub struct DepGraph {
    graph: DiGraph<(), ()>,
    nodes: BiHashMap<u64, usize>,
    roots: Vec<u64>,
    labels: Ghost<Seq<u64>>,
}

impl DepGraph {
    /// `x` is a node of the graph.
    pub closed spec fn has_node(&self, x: u64) -> bool {
        bimap_pairs(self.nodes).contains_key(x)
    }

    /// The immediate dependencies of `x`, in the order in which they were given
    /// when the graph was built; none for a label that is no node.
    pub closed spec fn deps(&self, x: u64) -> Seq<u64> {
        label_deps(graph_edges(self.graph), bimap_pairs(self.nodes), self.labels@, x)
    }

    /// The immediate dependencies of every label.
    pub open spec fn deps_fn(&self) -> spec_fn(u64) -> Seq<u64> {
        |x: u64| self.deps(x)
    }

    /// `x` depends on `y`, directly or through other nodes.
    pub open spec fn depends_on(&self, x: u64, y: u64) -> bool {
        depends(self.deps_fn(), x, y)
    }

    /// The roots the graph was built from.
    pub closed spec fn spec_roots(&self) -> Seq<u64> {
        self.roots@
    }

    /// What `all_deps_for` yields for the node `x`: the search order of the
    /// graph store, without `x` itself.
    pub closed spec fn spec_all_deps(&self, x: u64) -> Seq<u64> {
        let start = bimap_pairs(self.nodes)[x];
        without(
            dfs_post_order(graph_edges(self.graph), graph_node_count(self.graph), start),
            start,
        ).map_values(|t: usize| self.labels@[t as int])
    }

    /// The graph is consistent: labels and nodes stand one for one, every edge
    /// joins two nodes, every root is a node, and no node reaches itself.
    pub closed spec fn wf(&self) -> bool {
        &&& graph_node_count(self.graph) == self.labels@.len()
        &&& index_model(bimap_pairs(self.nodes), self.labels@)
        &&& edges_in_range(graph_edges(self.graph), self.labels@.len())
        &&& forall|a: usize| !reaches_strictly(graph_edges(self.graph), a, a)
        &&& forall|k: int| 0 <= k < self.roots@.len() ==> bimap_pairs(self.nodes).contains_key(#[trigger] self.roots@[k])
    }

    /// Creates a graph starting with a set of `roots`, and then finds the
    /// dependencies by calling `compute_deps` once for each label that is reached.
    ///
    /// Returns an error if what is reached holds a cycle, or does not fit,
    /// and a graph otherwise. `stringify` is called only for the label that a
    /// cycle is reported with, so it need not take any other.
    pub fn build<S: Fn(&u64) -> String, F: Fn(&u64) -> Vec<u64>>(
        roots: Vec<u64>,
        stringify: S,
        compute_deps: F,
    ) -> (res: Result<DepGraph, GraphError>)
        requires
            is_function(compute_deps),
            forall|x: u64| reachable_from(deps_of(compute_deps), roots@, x) ==> call_requires(compute_deps, (&x,)),
            forall|x: u64|
                reachable_from(deps_of(compute_deps), roots@, x) && depends(deps_of(compute_deps), x, x)
                    ==> call_requires(stringify, (&x,)),
        ensures
            match res {
                Ok(g) => {
                    &&& g.wf()
                    &&& g.spec_roots() == roots@
                    &&& forall|x: u64| #[trigger] g.has_node(x) <==> reachable_from(deps_of(compute_deps), roots@, x)
                    &&& forall|x: u64| #[trigger] g.has_node(x) ==> g.deps(x) == deps_of(compute_deps)(x)
                    &&& forall|x: u64| #[trigger] g.has_node(x) ==> !depends(deps_of(compute_deps), x, x)
                    &&& !exceeds_capacity(deps_of(compute_deps), roots@)
                },
                Err(GraphError::TooLarge) => exceeds_capacity(deps_of(compute_deps), roots@),
                Err(GraphError::CycleDetected { node, name }) => {
                    &&& !exceeds_capacity(deps_of(compute_deps), roots@)
                    &&& reachable_from(deps_of(compute_deps), roots@, node)
                    &&& depends(deps_of(compute_deps), node, node)
                    &&& call_ensures(stringify, (&node,), name)
                },
            },
            res is Ok <==> !exceeds_capacity(deps_of(compute_deps), roots@) && forall|x: u64|
                #[trigger] reachable_from(deps_of(compute_deps), roots@, x) ==> !depends(deps_of(compute_deps), x, x),
    {
        let source = FnSource { stringify, compute_deps };
        proof {
            assert(source_deps(&source) =~= deps_of(compute_deps));
        }
        DepGraph::build_from(roots, &source)
    }

    /// Creates a graph starting with a set of `roots`, and then finds the
    /// dependencies by asking `source` once about each label that is reached.
    ///
    /// Returns an error if what is reached holds a cycle, or does not fit,
    /// and a graph otherwise. The source is asked for a name only of the
    /// label that a cycle is reported with.
    pub fn build_from<D: DepSource>(roots: Vec<u64>, source: &D) -> (res: Result<DepGraph, GraphError>)
        requires
            forall|x: u64| reachable_from(source_deps(source), roots@, x) ==> source.admits(x),
            forall|x: u64|
                reachable_from(source_deps(source), roots@, x) && depends(source_deps(source), x, x)
                    ==> source.can_name(x),
        ensures
            match res {
                Ok(g) => {
                    &&& g.wf()
                    &&& g.spec_roots() == roots@
                    &&& forall|x: u64| #[trigger] g.has_node(x) <==> reachable_from(source_deps(source), roots@, x)
                    &&& forall|x: u64| #[trigger] g.has_node(x) ==> g.deps(x) == source.spec_deps(x)
                    &&& forall|x: u64| #[trigger] g.has_node(x) ==> !depends(source_deps(source), x, x)
                    &&& !exceeds_capacity(source_deps(source), roots@)
                },
                Err(GraphError::TooLarge) => exceeds_capacity(source_deps(source), roots@),
                Err(GraphError::CycleDetected { node, name }) => {
                    &&& !exceeds_capacity(source_deps(source), roots@)
                    &&& reachable_from(source_deps(source), roots@, node)
                    &&& depends(source_deps(source), node, node)
                    &&& source.names(node, name)
                },
            },
            res is Ok <==> !exceeds_capacity(source_deps(source), roots@) && forall|x: u64|
                #[trigger] reachable_from(source_deps(source), roots@, x) ==> !depends(source_deps(source), x, x),
    {
        let ghost d = source_deps(source);
        let res = DepGraph::grow(roots, source);
        proof {
            if res is Ok {
                let g = res->Ok_0;
                assert forall|x: u64| #[trigger] reachable_from(d, roots@, x) implies !depends(d, x, x) by {
                    assert(g.has_node(x));
                }
            }
        }
        res
    }

    /// Grows the graph from the roots, label by label, and looks for a cycle
    /// in what has grown.
    fn grow<D: DepSource>(roots: Vec<u64>, source: &D) -> (res: Result<DepGraph, GraphError>)
        requires
            forall|x: u64| reachable_from(source_deps(source), roots@, x) ==> source.admits(x),
            forall|x: u64|
                reachable_from(source_deps(source), roots@, x) && depends(source_deps(source), x, x)
                    ==> source.can_name(x),
        ensures
            match res {
                Ok(g) => {
                    &&& g.wf()
                    &&& g.spec_roots() == roots@
                    &&& forall|x: u64| #[trigger] g.has_node(x) <==> reachable_from(source_deps(source), roots@, x)
                    &&& forall|x: u64| #[trigger] g.has_node(x) ==> g.deps(x) == source.spec_deps(x)
                    &&& forall|x: u64| #[trigger] g.has_node(x) ==> !depends(source_deps(source), x, x)
                    &&& !exceeds_capacity(source_deps(source), roots@)
                },
                Err(GraphError::TooLarge) => exceeds_capacity(source_deps(source), roots@),
                Err(GraphError::CycleDetected { node, name }) => {
                    &&& !exceeds_capacity(source_deps(source), roots@)
                    &&& reachable_from(source_deps(source), roots@, node)
                    &&& depends(source_deps(source), node, node)
                    &&& source.names(node, name)
                },
            },
    {
        let ghost deps = source_deps(source);
        let mut graph = graph_new();
        let mut nodes = bimap_new();
        let mut stack: Vec<(usize, u64)> = Vec::new();
        let ghost mut labels: Seq<u64> = Seq::empty();
        let ghost mut done: Seq<u64> = Seq::empty();
        proof {
            lemma_grow_start(deps, roots@);
            assert(graph_edges(graph) =~= Seq::empty());
            assert(stack@ =~= Seq::empty());
        }

        let mut r: usize = 0;
        while r < roots.len()
            invariant
                r <= roots.len(),
                deps == source_deps(source),
                graph_node_count(graph) == labels.len(),
                labels.len() <= MAX_NODES,
                growing(graph_edges(graph), bimap_pairs(nodes), labels, stack@, done, None, 0, deps, roots@),
                forall|k: int| 0 <= k < r ==> bimap_pairs(nodes).contains_key(#[trigger] roots@[k]),
            decreases roots.len() - r,
        {
            let root = roots[r];
            proof {
                lemma_root_reachable(deps, roots@, r as int);
            }
            if bimap_get_by_left(&nodes, root).is_none() {
                if graph_count_nodes(&graph) >= MAX_NODES {
                    proof {
                        lemma_overflow_nodes(graph_edges(graph), bimap_pairs(nodes), labels, stack@, done, None, 0, deps, roots@, root);
                    }
                    return Err(GraphError::TooLarge);
                }
                proof {
                    lemma_grow_node(graph_edges(graph), bimap_pairs(nodes), labels, stack@, done, None, 0, deps, roots@, root);
                }
                let idx = graph_add_node(&mut graph);
                bimap_insert(&mut nodes, root, idx);
                stack.push((idx, root));
                proof {
                    labels = labels.push(root);
                }
            }
            r += 1;
        }

        while stack.len() > 0
            invariant
                deps == source_deps(source),
                forall|x: u64| reachable_from(source_deps(source), roots@, x) ==> source.admits(x),
                graph_node_count(graph) == labels.len(),
                labels.len() <= MAX_NODES,
                growing(graph_edges(graph), bimap_pairs(nodes), labels, stack@, done, None, 0, deps, roots@),
                forall|k: int| 0 <= k < roots@.len() ==> bimap_pairs(nodes).contains_key(#[trigger] roots@[k]),
            decreases 2 * (MAX_NODES - labels.len()) + stack@.len(),
        {
            let ghost measure = 2 * (MAX_NODES - labels.len()) + stack@.len();
            proof {
                lemma_grow_pop(graph_edges(graph), bimap_pairs(nodes), labels, stack@, done, deps, roots@);
            }
            let (idx, el) = match stack.pop() {
                Some(entry) => entry,
                None => {
                    proof {
                        assert(false);
                    }
                    (0, 0)
                },
            };
            let ds = source.deps_for(&el);
            let mut j: usize = 0;
            while j < ds.len()
                invariant
                    j <= ds.len(),
                    ds@ == deps(el),
                    deps == source_deps(source),
                    graph_node_count(graph) == labels.len(),
                    labels.len() <= MAX_NODES,
                    growing(graph_edges(graph), bimap_pairs(nodes), labels, stack@, done, Some(el), j as nat, deps, roots@),
                    bimap_pairs(nodes).contains_key(el),
                    bimap_pairs(nodes)[el] == idx,
                    idx < labels.len(),
                    reachable_from(deps, roots@, el),
                    forall|k: int| 0 <= k < roots@.len() ==> bimap_pairs(nodes).contains_key(#[trigger] roots@[k]),
                    2 * (MAX_NODES - labels.len()) + stack@.len() < measure,
                decreases ds.len() - j,
            {
                let dep = ds[j];
                proof {
                    assert(deps(el).contains(dep));
                    lemma_reachable_step(deps, roots@, el, dep);
                }
                let dep_idx = match bimap_get_by_left(&nodes, dep) {
                    Some(dep_idx) => {
                        proof {
                            reveal(growing);
                        }
                        dep_idx
                    },
                    None => {
                        if graph_count_nodes(&graph) >= MAX_NODES {
                            proof {
                                lemma_overflow_nodes(graph_edges(graph), bimap_pairs(nodes), labels, stack@, done, Some(el), j as nat, deps, roots@, dep);
                            }
                            return Err(GraphError::TooLarge);
                        }
                        proof {
                            lemma_grow_node(graph_edges(graph), bimap_pairs(nodes), labels, stack@, done, Some(el), j as nat, deps, roots@, dep);
                        }
                        let dep_idx = graph_add_node(&mut graph);
                        bimap_insert(&mut nodes, dep, dep_idx);
                        stack.push((dep_idx, dep));
                        proof {
                            labels = labels.push(dep);
                        }
                        dep_idx
                    },
                };
                if graph_count_edges(&graph) >= MAX_EDGES {
                    proof {
                        lemma_overflow_edges(graph_edges(graph), bimap_pairs(nodes), labels, stack@, done, el, j as nat, deps, roots@);
                    }
                    return Err(GraphError::TooLarge);
                }
                proof {
                    lemma_grow_edge(graph_edges(graph), bimap_pairs(nodes), labels, stack@, done, el, j as nat, deps, roots@, dep);
                }
                graph_add_edge(&mut graph, idx, dep_idx);
                j += 1;
            }
            proof {
                lemma_grow_finish(graph_edges(graph), bimap_pairs(nodes), labels, stack@, done, el, deps, roots@);
                done = done.push(el);
            }
        }

        let ghost edges = graph_edges(graph);
        let ghost pairs = bimap_pairs(nodes);
        proof {
            assert(stack@ =~= Seq::empty());
            lemma_grow_end(edges, pairs, labels, done, deps, roots@);
        }
        match graph_toposort(&graph) {
            Ok(order) => {
                proof {
                    lemma_sorted_acyclic(edges, labels.len(), order@);
                    assert forall|x: u64| #[trigger] pairs.contains_key(x) implies !depends(deps, x, x) by {
                        lemma_no_label_cycle(edges, pairs, labels, deps, x);
                    }
                }
                Ok(DepGraph { graph, nodes, roots, labels: Ghost(labels) })
            },
            Err(index) => {
                let node = match bimap_get_by_right(&nodes, index) {
                    Some(node) => node,
                    None => {
                        proof {
                            assert(pairs.contains_key(labels[index as int]));
                            assert(false);
                        }
                        0
                    },
                };
                proof {
                    assert(labels[index as int] == node);
                    lemma_cycle_label(edges, pairs, labels, deps, index);
                }
                let name = source.name_for(&node);
                Err(GraphError::CycleDetected { node, name })
            },
        }
    }

    proof fn lemma_deps_fn(&self)
        ensures
            self.deps_fn() == graph_deps(graph_edges(self.graph), bimap_pairs(self.nodes), self.labels@),
    {
        let d = graph_deps(graph_edges(self.graph), bimap_pairs(self.nodes), self.labels@);
        assert forall|x: u64| #[trigger] self.deps_fn()(x) == d(x) by {}
        assert(self.deps_fn() =~= d);
    }

    /// The number of nodes of the graph; their places are the numbers below it.
    pub closed spec fn node_count(&self) -> nat {
        graph_node_count(self.graph)
    }

    /// The place of the node `x` in the graph.
    pub closed spec fn place_of(&self, x: u64) -> usize {
        bimap_pairs(self.nodes)[x]
    }

    /// The node at the place `index`.
    pub closed spec fn node_at(&self, index: usize) -> u64 {
        self.labels@[index as int]
    }

    /// The place of the node `el` in the graph.
    pub fn index(&self, el: &u64) -> (idx: usize)
        requires
            self.wf(),
            self.has_node(*el),
        ensures
            idx == self.place_of(*el),
            idx < self.node_count(),
            self.node_at(idx) == *el,
    {
        match bimap_get_by_left(&self.nodes, *el) {
            Some(idx) => idx,
            None => {
                proof {
                    assert(false);
                }
                0
            },
        }
    }

    /// The node at the place `index`.
    pub fn value(&self, index: usize) -> (label: u64)
        requires
            self.wf(),
            index < self.node_count(),
        ensures
            label == self.node_at(index),
            self.has_node(label),
            self.place_of(label) == index,
    {
        match bimap_get_by_right(&self.nodes, index) {
            Some(label) => label,
            None => {
                proof {
                    assert(bimap_pairs(self.nodes).contains_key(self.labels@[index as int]));
                    assert(false);
                }
                0
            },
        }
    }

    /// The nodes of the graph, each once, in an order that is not fixed.
    pub fn nodes(&self) -> (out: Vec<u64>)
        ensures
            out@.no_duplicates(),
            forall|x: u64| #[trigger] out@.contains(x) <==> self.has_node(x),
    {
        bimap_left_values(&self.nodes)
    }

    /// The roots the graph was built from, as they were given.
    pub fn roots(&self) -> (out: &Vec<u64>)
        ensures
            out@ == self.spec_roots(),
    {
        &self.roots
    }

    /// The immediate dependencies of `el`, the last one given first.
    pub fn immediate_deps_for(&self, el: &u64) -> (out: Vec<u64>)
        requires
            self.wf(),
            self.has_node(*el),
        ensures
            out@ == self.deps(*el).reverse(),
            forall|i: int| 0 <= i < out@.len() ==> self.has_node(#[trigger] out@[i]),
    {
        let index = self.index(el);
        let targets = graph_neighbors(&self.graph, index);
        let ghost edges = graph_edges(self.graph);
        let ghost o = out_targets(edges, index);
        proof {
            lemma_out_targets_edges(edges, index);
            assert forall|j: int| 0 <= j < o.len() implies #[trigger] o[j] < self.labels@.len() by {
                assert(o.contains(o[j]));
                assert(has_edge(edges, index, o[j]));
                let k = choose|k: int| 0 <= k < edges.len() && edges[k] == (index, o[j]);
                assert(edges[k].1 < self.labels@.len());
            }
        }
        let mut out: Vec<u64> = Vec::new();
        let mut i: usize = 0;
        while i < targets.len()
            invariant
                self.wf(),
                i <= targets.len(),
                targets@ == o.reverse(),
                forall|j: int| 0 <= j < o.len() ==> #[trigger] o[j] < self.labels@.len(),
                out@.len() == i,
                forall|j: int| 0 <= j < i ==> #[trigger] out@[j] == self.labels@[targets@[j] as int] && self.has_node(out@[j]),
            decreases targets.len() - i,
        {
            proof {
                assert(targets@[i as int] == o[o.len() - 1 - i]);
            }
            let label = self.value(targets[i]);
            out.push(label);
            i += 1;
        }
        proof {
            let d = self.deps(*el);
            assert(d.len() == o.len());
            assert(out@ =~= d.reverse()) by {
                assert forall|j: int| 0 <= j < out@.len() implies out@[j] == d.reverse()[j] by {
                    assert(targets@[j] == o[o.len() - 1 - j]);
                }
            }
        }
        out
    }

    /// Every node that `el` depends on, directly or through other nodes, each
    /// once; `el` itself is not among them.
    pub fn all_deps_for(&self, el: &u64) -> (out: Vec<u64>)
        requires
            self.wf(),
            self.has_node(*el),
        ensures
            out@ == self.spec_all_deps(*el),
            out@.no_duplicates(),
            !out@.contains(*el),
            forall|y: u64| #[trigger] out@.contains(y) <==> self.depends_on(*el, y),
            forall|i: int| 0 <= i < out@.len() ==> self.has_node(#[trigger] out@[i]),
    {
        let index = self.index(el);
        let order = graph_dfs_post_order(&self.graph, index);
        let ghost edges = graph_edges(self.graph);
        let ghost pairs = bimap_pairs(self.nodes);
        let ghost labels = self.labels@;
        proof {
            assert forall|j: int| 0 <= j < order@.len() implies #[trigger] order@[j] < labels.len() by {
                assert(order@.contains(order@[j]));
                assert(reaches(edges, index, order@[j]));
                let q = choose|q: Seq<usize>| is_walk(edges, q) && #[trigger] q.first() == index && q.last() == order@[j];
                lemma_walk_to_labels(edges, pairs, labels, q);
                assert(q[q.len() - 1] < labels.len());
            }
        }
        let mut out: Vec<u64> = Vec::new();
        let mut i: usize = 0;
        while i < order.len()
            invariant
                self.wf(),
                i <= order.len(),
                labels == self.labels@,
                forall|j: int| 0 <= j < order@.len() ==> #[trigger] order@[j] < labels.len(),
                out@ == without(order@.take(i as int), index).map_values(|t: usize| labels[t as int]),
            decreases order.len() - i,
        {
            let v = order[i];
            proof {
                lemma_without_push(order@.take(i as int), v, index);
                assert(order@.take(i as int).push(v) =~= order@.take(i + 1));
            }
            if v != index {
                let label = self.value(v);
                out.push(label);
                proof {
                    let w = without(order@.take(i as int), index);
                    assert(w.push(v).map_values(|t: usize| labels[t as int])
                        =~= w.map_values(|t: usize| labels[t as int]).push(label));
                }
            }
            i += 1;
        }
        proof {
            assert(order@.take(order@.len() as int) =~= order@);
            let w = without(order@, index);
            lemma_without(order@, index);
            self.lemma_deps_fn();
            assert forall|k: int| 0 <= k < w.len() implies #[trigger] w[k] < labels.len() by {
                assert(w.contains(w[k]));
                assert(order@.contains(w[k]));
                let j = choose|j: int| 0 <= j < order@.len() && order@[j] == w[k];
                assert(order@[j] < labels.len());
            }
            assert forall|a: int, b: int| 0 <= a < b < out@.len() implies out@[a] != out@[b] by {
                assert(w[a] != w[b]);
                assert(pairs[labels[w[a] as int]] == w[a]);
                assert(pairs[labels[w[b] as int]] == w[b]);
            }
            assert forall|y: u64| #[trigger] out@.contains(y) <==> self.depends_on(*el, y) by {
                lemma_depends_iff(edges, pairs, labels, *el, y);
                if out@.contains(y) {
                    let k = choose|k: int| 0 <= k < out@.len() && out@[k] == y;
                    let t = w[k];
                    assert(w.contains(t));
                    assert(order@.contains(t) && t != index);
                    assert(reaches(edges, index, t));
                    let q = choose|q: Seq<usize>| is_walk(edges, q) && #[trigger] q.first() == index && q.last() == t;
                    assert(q.len() >= 2);
                    assert(reaches_strictly(edges, index, t));
                    assert(pairs.contains_key(labels[t as int]) && pairs[labels[t as int]] == t);
                }
                if self.depends_on(*el, y) {
                    let t = pairs[y];
                    assert(reaches_strictly(edges, index, t));
                    let q = choose|q: Seq<usize>|
                        is_walk(edges, q) && q.len() >= 2 && #[trigger] q.first() == index && q.last() == t;
                    assert(reaches(edges, index, t));
                    assert(t != index);
                    assert(order@.contains(t));
                    assert(w.contains(t));
                    let k = choose|k: int| 0 <= k < w.len() && w[k] == t;
                    assert(out@[k] == y);
                }
            }
            assert(!out@.contains(*el)) by {
                lemma_depends_iff(edges, pairs, labels, *el, *el);
            }
            assert forall|i: int| 0 <= i < out@.len() implies self.has_node(#[trigger] out@[i]) by {
                assert(w[i] < labels.len());
            }
        }
        out
    }

    /// Whether `el` depends on `dep`, directly or through other nodes.
    pub fn is_dependent_on(&self, el: &u64, dep: &u64) -> (r: bool)
        requires
            self.wf(),
            self.has_node(*el),
        ensures
            r == self.depends_on(*el, *dep),
    {
        let all = self.all_deps_for(el);
        let mut i: usize = 0;
        while i < all.len()
            invariant
                i <= all.len(),
                forall|j: int| 0 <= j < i ==> all@[j] != *dep,
                all@.contains(*dep) <==> self.depends_on(*el, *dep),
            decreases all.len() - i,
        {
            if all[i] == *dep {
                proof {
                    assert(all@.contains(*dep));
                }
                return true;
            }
            i += 1;
        }
        proof {
            assert(!all@.contains(*dep));
        }
        false
    }
}

/// Two walks that meet make one walk.
pub proof fn lemma_join_walks(deps: spec_fn(u64) -> Seq<u64>, p: Seq<u64>, q: Seq<u64>, x: u64, y: u64, z: u64)
    requires
        label_walk(deps, p, x, y),
        label_walk(deps, q, y, z),
    ensures
        label_walk(deps, p + q.drop_first(), x, z),
        (p + q.drop_first()).len() == p.len() + q.len() - 1,
{
    let w = p + q.drop_first();
    assert forall|i: int| 0 <= i < w.len() - 1 implies deps(#[trigger] w[i]).contains(w[i + 1]) by {
        if i < p.len() - 1 {
            assert(w[i] == p[i]);
            assert(w[i + 1] == p[i + 1]);
        } else {
            let k = i - (p.len() - 1);
            assert(w[i] == q[k]);
            assert(w[i + 1] == q[k + 1]);
            assert(deps(q[k]).contains(q[k + 1]));
        }
    }
    if q.len() == 1 {
        assert(w =~= p);
    } else {
        assert(w.last() == q.last());
    }
}

/// Depending is transitive: what a dependency depends on, the dependent depends on too.
pub proof fn lemma_depends_transitive(deps: spec_fn(u64) -> Seq<u64>, x: u64, y: u64, z: u64)
    requires
        depends(deps, x, y),
        depends(deps, y, z),
    ensures
        depends(deps, x, z),
{
    let p = choose|p: Seq<u64>| label_walk(deps, p, x, y) && p.len() >= 2;
    let q = choose|q: Seq<u64>| label_walk(deps, q, y, z) && q.len() >= 2;
    lemma_join_walks(deps, p, q, x, y, z);
    assert(label_walk(deps, p + q.drop_first(), x, z) && (p + q.drop_first()).len() >= 2);
}

/// A label depends on each of its immediate dependencies.
pub proof fn lemma_immediate_depends(deps: spec_fn(u64) -> Seq<u64>, x: u64, y: u64)
    requires
        deps(x).contains(y),
    ensures
        depends(deps, x, y),
{
    let p = seq![x, y];
    assert(label_walk(deps, p, x, y) && p.len() >= 2);
}

impl DepGraph {
    /// No node of a graph depends on itself, and no other label depends on anything.
    pub proof fn lemma_acyclic(&self, x: u64)
        requires
            self.wf(),
        ensures
            !self.depends_on(x, x),
    {
        self.lemma_deps_fn();
        if self.depends_on(x, x) {
            self.lemma_depends_on_nodes(x, x);
            lemma_depends_iff(graph_edges(self.graph), bimap_pairs(self.nodes), self.labels@, x, x);
        }
    }

    /// Only nodes depend on anything, and only on nodes.
    pub proof fn lemma_depends_on_nodes(&self, x: u64, y: u64)
        requires
            self.wf(),
            self.depends_on(x, y),
        ensures
            self.has_node(x),
            self.has_node(y),
    {
        self.lemma_deps_fn();
        let d = self.deps_fn();
        let p = choose|p: Seq<u64>| label_walk(d, p, x, y) && p.len() >= 2;
        assert(d(p[0]).contains(p[1]));
        lemma_depends_iff(graph_edges(self.graph), bimap_pairs(self.nodes), self.labels@, x, y);
    }

    /// The immediate dependencies of a node are nodes.
    pub proof fn lemma_deps_are_nodes(&self, x: u64, y: u64)
        requires
            self.wf(),
            self.deps(x).contains(y),
        ensures
            self.has_node(x),
            self.has_node(y),
            self.depends_on(x, y),
    {
        lemma_immediate_depends(self.deps_fn(), x, y);
        self.lemma_depends_on_nodes(x, y);
    }

    /// Every root of a graph is one of its nodes.
    pub proof fn lemma_roots_are_nodes(&self, k: int)
        requires
            self.wf(),
            0 <= k < self.spec_roots().len(),
        ensures
            self.has_node(self.spec_roots()[k]),
    {
    }
}

impl DepGraph {
    /// A node depends on more nodes than any node that it depends on does.
    pub proof fn lemma_more_deps(&self, z: u64, y: u64, all_z: Seq<u64>, all_y: Seq<u64>)
        requires
            self.wf(),
            self.depends_on(z, y),
            all_z.no_duplicates(),
            all_y.no_duplicates(),
            forall|v: u64| #[trigger] all_z.contains(v) <==> self.depends_on(z, v),
            forall|v: u64| #[trigger] all_y.contains(v) <==> self.depends_on(y, v),
        ensures
            all_y.len() < all_z.len(),
    {
        broadcast use vstd::seq_lib::seq_to_set_is_finite;

        let a = all_y.to_set();
        let b = all_z.to_set();
        all_y.unique_seq_to_set();
        all_z.unique_seq_to_set();
        self.lemma_acyclic(y);
        assert(!a.contains(y));
        assert(a.insert(y).subset_of(b)) by {
            assert forall|v: u64| a.insert(y).contains(v) implies b.contains(v) by {
                if v != y {
                    assert(all_y.contains(v));
                    lemma_depends_transitive(self.deps_fn(), z, y, v);
                }
                assert(all_z.contains(v));
            }
        }
        vstd::set_lib::lemma_len_subset(a.insert(y), b);
    }
}

/// What is said to the user of an error with a graph.
pub open spec fn graph_error_text(e: GraphError) -> Seq<char> {
    match e {
        GraphError::CycleDetected { node, name } => "Cycle detected in dependency graph involving node: "@ + name@,
        GraphError::TooLarge => "Dependency graph is too large"@,
    }
}

/// What is said of a cycle ends with the name of the label that lies on it.
pub proof fn lemma_cycle_text_names_node(node: u64, name: String)
    ensures
        graph_error_text(GraphError::CycleDetected { node, name }).len() >= name@.len(),
        graph_error_text(GraphError::CycleDetected { node, name }).skip(
            graph_error_text(GraphError::CycleDetected { node, name }).len() - name@.len(),
        ) == name@,
{
    let start = "Cycle detected in dependency graph involving node: "@;
    assert((start + name@).skip(start.len() as int) =~= name@);
}

impl GraphError {
    /// What is said to the user.
    pub fn to_string(&self) -> (r: String)
        ensures
            r@ == graph_error_text(*self),
    {
        match self {
            GraphError::CycleDetected { node, name } => String::from_str("Cycle detected in dependency graph involving node: ").concat(
                name.as_str(),
            ),
            GraphError::TooLarge => String::from_str("Dependency graph is too large"),
        }
    }
}

/// The labels below `n`.
pub open spec fn labels_below(n: nat) -> Set<u64> {
    Set::new(|x: u64| x < n)
}

/// There are finitely many labels below a bound.
pub proof fn lemma_labels_below_finite(n: nat)
    ensures
        labels_below(n).finite(),
    decreases n,
{
    if n == 0 {
        assert(labels_below(n) =~= Set::<u64>::empty());
    } else if n > u64::MAX + 1 {
        lemma_labels_below_finite((n - 1) as nat);
        assert(labels_below(n) =~= labels_below((n - 1) as nat));
    } else {
        lemma_labels_below_finite((n - 1) as nat);
        assert(labels_below(n) =~= labels_below((n - 1) as nat).insert((n - 1) as u64));
    }
}

impl DepGraph {
    /// Everything that `x` depends on.
    pub open spec fn all_deps(&self, x: u64) -> Set<u64> {
        Set::new(|y: u64| self.depends_on(x, y))
    }

    /// In a graph whose nodes are the labels below `n`, a node depends on
    /// finitely many nodes, and on more of them than any node that it depends
    /// on does.
    pub proof fn lemma_fewer_deps(&self, n: nat, t: u64, d: u64)
        requires
            self.wf(),
            forall|x: u64| #[trigger] self.has_node(x) ==> x < n,
            self.depends_on(t, d),
        ensures
            self.all_deps(t).finite(),
            self.all_deps(d).finite(),
            self.all_deps(d).len() < self.all_deps(t).len(),
    {
        let big = self.all_deps(t);
        let small = self.all_deps(d);
        lemma_labels_below_finite(n);
        assert(big.subset_of(labels_below(n))) by {
            assert forall|y: u64| big.contains(y) implies labels_below(n).contains(y) by {
                self.lemma_depends_on_nodes(t, y);
            }
        }
        vstd::set_lib::lemma_len_subset(big, labels_below(n));
        self.lemma_acyclic(d);
        assert(small.insert(d).subset_of(big)) by {
            assert forall|y: u64| small.insert(d).contains(y) implies big.contains(y) by {
                if y != d {
                    lemma_depends_transitive(self.deps_fn(), t, d, y);
                }
            }
        }
        vstd::set_lib::lemma_len_subset(small.insert(d), big);
        assert(small.subset_of(small.insert(d)));
        vstd::set_lib::lemma_len_subset(small, small.insert(d));
        assert(!small.contains(d));
    }
}

} // verus!
