//! How a graph over node indices stands for a graph over labels: each label
//! has one node, and an edge between nodes is a dependency between labels.

use super::dep_graph::{depends, label_walk, leads_to};
use super::graph_store::{has_edge, is_topological_order, is_walk, out_targets, reaches, reaches_strictly};
use vstd::prelude::*;

verus! {

/// Each label has one index below `labels.len()`, and `labels` maps it back.
pub open spec fn index_model(pairs: Map<u64, usize>, labels: Seq<u64>) -> bool {
    &&& forall|i: int| 0 <= i < labels.len() ==> pairs.contains_key(#[trigger] labels[i]) && pairs[labels[i]] == i
    &&& forall|l: u64| #[trigger] pairs.contains_key(l) ==> pairs[l] < labels.len() && labels[pairs[l] as int] == l
}

/// Every edge joins two nodes.
pub open spec fn edges_in_range(edges: Seq<(usize, usize)>, n: nat) -> bool {
    forall|k: int| 0 <= k < edges.len() ==> (#[trigger] edges[k]).0 < n && edges[k].1 < n
}

/// The dependencies of the label `x` in a graph with these edges and labels, in
/// the order in which they were recorded.
pub open spec fn label_deps(edges: Seq<(usize, usize)>, pairs: Map<u64, usize>, labels: Seq<u64>, x: u64) -> Seq<u64> {
    if pairs.contains_key(x) {
        out_targets(edges, pairs[x]).map_values(|t: usize| labels[t as int])
    } else {
        Seq::empty()
    }
}

/// What leaves a node after one more edge was added.
pub proof fn lemma_out_targets_push(edges: Seq<(usize, usize)>, e: (usize, usize), a: usize)
    ensures
        out_targets(edges.push(e), a) == if e.0 == a {
            out_targets(edges, a).push(e.1)
        } else {
            out_targets(edges, a)
        },
{
    assert(edges.push(e).drop_last() =~= edges);
}

/// The targets of the edges that leave a node are the nodes that it has an edge to.
pub proof fn lemma_out_targets_edges(edges: Seq<(usize, usize)>, a: usize)
    ensures
        forall|b: usize|
            #![trigger out_targets(edges, a).contains(b)]
            #![trigger has_edge(edges, a, b)]
            out_targets(edges, a).contains(b) <==> has_edge(edges, a, b),
    decreases edges.len(),
{
    if edges.len() == 0 {
        assert forall|b: usize| out_targets(edges, a).contains(b) <==> has_edge(edges, a, b) by {}
    } else {
        let rest = edges.drop_last();
        let e = edges.last();
        lemma_out_targets_edges(rest, a);
        assert forall|b: usize| out_targets(edges, a).contains(b) <==> has_edge(edges, a, b) by {
            if out_targets(edges, a).contains(b) {
                if e.0 == a {
                    let s = out_targets(rest, a).push(e.1);
                    let j = choose|j: int| 0 <= j < s.len() && s[j] == b;
                    if j < s.len() - 1 {
                        assert(out_targets(rest, a)[j] == b);
                        assert(out_targets(rest, a).contains(b));
                    } else {
                        assert(edges[edges.len() - 1] == (a, b));
                    }
                }
                if has_edge(rest, a, b) {
                    let k = choose|k: int| 0 <= k < rest.len() && rest[k] == (a, b);
                    assert(edges[k] == (a, b));
                }
            }
            if has_edge(edges, a, b) {
                let k = choose|k: int| 0 <= k < edges.len() && edges[k] == (a, b);
                if k < edges.len() - 1 {
                    assert(rest[k] == (a, b));
                    assert(has_edge(rest, a, b));
                    let s = out_targets(rest, a);
                    let j = choose|j: int| 0 <= j < s.len() && s[j] == b;
                    if e.0 == a {
                        assert(s.push(e.1)[j] == b);
                    }
                } else {
                    let s = out_targets(rest, a);
                    assert(s.push(e.1)[s.len() as int] == b);
                }
            }
        }
    }
}

/// The dependencies of every label in a graph with these edges and labels.
pub open spec fn graph_deps(edges: Seq<(usize, usize)>, pairs: Map<u64, usize>, labels: Seq<u64>) -> spec_fn(u64) -> Seq<u64> {
    |x: u64| label_deps(edges, pairs, labels, x)
}

/// `s` without every occurrence of `a`.
pub open spec fn without(s: Seq<usize>, a: usize) -> Seq<usize>
    decreases s.len(),
{
    if s.len() == 0 {
        Seq::empty()
    } else if s.last() == a {
        without(s.drop_last(), a)
    } else {
        without(s.drop_last(), a).push(s.last())
    }
}

pub(crate) proof fn lemma_without(s: Seq<usize>, a: usize)
    ensures
        forall|v: usize| #[trigger] without(s, a).contains(v) <==> s.contains(v) && v != a,
        s.no_duplicates() ==> without(s, a).no_duplicates(),
    decreases s.len(),
{
    if s.len() > 0 {
        let rest = s.drop_last();
        lemma_without(rest, a);
        let w = without(rest, a);
        assert forall|v: usize| #[trigger] without(s, a).contains(v) <==> s.contains(v) && v != a by {
            if without(s, a).contains(v) {
                let j = choose|j: int| 0 <= j < without(s, a).len() && without(s, a)[j] == v;
                if j < w.len() {
                    assert(w[j] == v);
                    assert(w.contains(v));
                    let k = choose|k: int| 0 <= k < rest.len() && rest[k] == v;
                    assert(s[k] == v);
                } else {
                    assert(s[s.len() - 1] == v);
                }
            }
            if s.contains(v) && v != a {
                let k = choose|k: int| 0 <= k < s.len() && s[k] == v;
                if k < s.len() - 1 {
                    assert(rest[k] == v);
                    assert(rest.contains(v));
                    assert(w.contains(v));
                    let j = choose|j: int| 0 <= j < w.len() && w[j] == v;
                    assert(without(s, a)[j] == v);
                } else {
                    assert(s.last() != a);
                    assert(without(s, a)[w.len() as int] == v);
                }
            }
        }
        if s.no_duplicates() {
            assert(rest.no_duplicates());
            if s.last() != a {
                assert(!w.contains(s.last())) by {
                    if rest.contains(s.last()) {
                        let k = choose|k: int| 0 <= k < rest.len() && rest[k] == s.last();
                        assert(s[k] == s[s.len() - 1]);
                    }
                }
                assert forall|i: int, j: int| 0 <= i < j < without(s, a).len() implies without(s, a)[i] != without(s, a)[j] by {
                    if j == w.len() {
                        assert(w[i] == without(s, a)[i]);
                        assert(w.contains(w[i]));
                    }
                }
            }
        }
    }
}

pub(crate) proof fn lemma_without_push(s: Seq<usize>, v: usize, a: usize)
    ensures
        without(s.push(v), a) == if v == a {
            without(s, a)
        } else {
            without(s, a).push(v)
        },
{
    assert(s.push(v).drop_last() =~= s);
}

/// A dependency of a label stands for an edge between their nodes.
pub(crate) proof fn lemma_dep_step(edges: Seq<(usize, usize)>, pairs: Map<u64, usize>, labels: Seq<u64>, x: u64, y: u64)
    requires
        index_model(pairs, labels),
        edges_in_range(edges, labels.len()),
        label_deps(edges, pairs, labels, x).contains(y),
    ensures
        pairs.contains_key(x),
        pairs.contains_key(y),
        has_edge(edges, pairs[x], pairs[y]),
{
    let d = label_deps(edges, pairs, labels, x);
    let j = choose|j: int| 0 <= j < d.len() && d[j] == y;
    let t = out_targets(edges, pairs[x])[j];
    lemma_out_targets_edges(edges, pairs[x]);
    assert(out_targets(edges, pairs[x]).contains(t));
    assert(has_edge(edges, pairs[x], t));
    let k = choose|k: int| 0 <= k < edges.len() && edges[k] == (pairs[x], t);
    assert(edges[k].1 < labels.len());
    assert(pairs.contains_key(labels[t as int]));
}

/// An edge between two nodes stands for a dependency of one label on the other.
pub(crate) proof fn lemma_edge_step(edges: Seq<(usize, usize)>, pairs: Map<u64, usize>, labels: Seq<u64>, a: usize, b: usize)
    requires
        index_model(pairs, labels),
        edges_in_range(edges, labels.len()),
        has_edge(edges, a, b),
    ensures
        a < labels.len(),
        b < labels.len(),
        label_deps(edges, pairs, labels, labels[a as int]).contains(labels[b as int]),
{
    let k = choose|k: int| 0 <= k < edges.len() && edges[k] == (a, b);
    assert(edges[k].0 < labels.len());
    lemma_out_targets_edges(edges, a);
    let o = out_targets(edges, a);
    assert(o.contains(b));
    let j = choose|j: int| 0 <= j < o.len() && o[j] == b;
    let d = label_deps(edges, pairs, labels, labels[a as int]);
    assert(pairs.contains_key(labels[a as int]));
    assert(d[j] == labels[b as int]);
}

/// A walk over labels, turned into the walk over their nodes.
pub(crate) proof fn lemma_walk_to_indices(edges: Seq<(usize, usize)>, pairs: Map<u64, usize>, labels: Seq<u64>, p: Seq<u64>, x: u64, y: u64)
    requires
        index_model(pairs, labels),
        edges_in_range(edges, labels.len()),
        label_walk(graph_deps(edges, pairs, labels), p, x, y),
        pairs.contains_key(x),
    ensures
        forall|i: int| 0 <= i < p.len() ==> pairs.contains_key(#[trigger] p[i]),
        is_walk(edges, p.map_values(|l: u64| pairs[l])),
        p.map_values(|l: u64| pairs[l]).first() == pairs[x],
        p.map_values(|l: u64| pairs[l]).last() == pairs[y],
    decreases p.len(),
{
    let q = p.map_values(|l: u64| pairs[l]);
    if p.len() > 1 {
        let rest = p.drop_last();
        let z = rest.last();
        assert forall|i: int|
            0 <= i < rest.len() - 1 implies
            graph_deps(edges, pairs, labels)(#[trigger] rest[i]).contains(rest[i + 1]) by {
            assert(rest[i] == p[i]);
            assert(rest[i + 1] == p[i + 1]);
        }
        lemma_walk_to_indices(edges, pairs, labels, rest, x, z);
        let n = p.len() - 2;
        assert(p[n] == z);
        assert(graph_deps(edges, pairs, labels)(p[n]).contains(p[n + 1]));
        lemma_dep_step(edges, pairs, labels, z, y);
        let qr = rest.map_values(|l: u64| pairs[l]);
        assert forall|i: int| 0 <= i < q.len() - 1 implies has_edge(edges, #[trigger] q[i], q[i + 1]) by {
            if i < n {
                assert(qr[i] == q[i]);
                assert(qr[i + 1] == q[i + 1]);
                assert(has_edge(edges, qr[i], qr[i + 1]));
            }
        }
    }
}

/// A walk over nodes, turned into the walk over their labels.
pub(crate) proof fn lemma_walk_to_labels(edges: Seq<(usize, usize)>, pairs: Map<u64, usize>, labels: Seq<u64>, q: Seq<usize>)
    requires
        index_model(pairs, labels),
        edges_in_range(edges, labels.len()),
        is_walk(edges, q),
        q.first() < labels.len(),
    ensures
        forall|i: int| 0 <= i < q.len() ==> #[trigger] q[i] < labels.len(),
        label_walk(
            graph_deps(edges, pairs, labels),
            q.map_values(|t: usize| labels[t as int]),
            labels[q.first() as int],
            labels[q.last() as int],
        ),
    decreases q.len(),
{
    let p = q.map_values(|t: usize| labels[t as int]);
    if q.len() > 1 {
        let rest = q.drop_last();
        assert forall|i: int| 0 <= i < rest.len() - 1 implies has_edge(edges, #[trigger] rest[i], rest[i + 1]) by {
            assert(rest[i] == q[i]);
            assert(rest[i + 1] == q[i + 1]);
        }
        lemma_walk_to_labels(edges, pairs, labels, rest);
        let n = q.len() - 2;
        assert(has_edge(edges, q[n], q[n + 1]));
        lemma_edge_step(edges, pairs, labels, q[n], q[n + 1]);
        let pr = rest.map_values(|t: usize| labels[t as int]);
        assert forall|i: int|
            0 <= i < p.len() - 1 implies
            graph_deps(edges, pairs, labels)(#[trigger] p[i]).contains(p[i + 1]) by {
            if i < n {
                assert(pr[i] == p[i]);
                assert(pr[i + 1] == p[i + 1]);
                assert(rest[i] == q[i]);
                assert(graph_deps(edges, pairs, labels)(pr[i]).contains(pr[i + 1]));
            }
        }
        assert forall|i: int| 0 <= i < q.len() implies #[trigger] q[i] < labels.len() by {
            if i < q.len() - 1 {
                assert(rest[i] == q[i]);
            }
        }
    }
}

/// Depending on a label, stated over labels, is reaching its node, stated over nodes.
pub(crate) proof fn lemma_depends_iff(edges: Seq<(usize, usize)>, pairs: Map<u64, usize>, labels: Seq<u64>, x: u64, y: u64)
    requires
        index_model(pairs, labels),
        edges_in_range(edges, labels.len()),
        pairs.contains_key(x),
    ensures
        depends(graph_deps(edges, pairs, labels), x, y) <==> pairs.contains_key(y) && reaches_strictly(edges, pairs[x], pairs[y]),
        leads_to(graph_deps(edges, pairs, labels), x, y) <==> pairs.contains_key(y) && reaches(edges, pairs[x], pairs[y]),
{
    let d = graph_deps(edges, pairs, labels);
    if leads_to(d, x, y) {
        let p = choose|p: Seq<u64>| label_walk(d, p, x, y);
        lemma_walk_to_indices(edges, pairs, labels, p, x, y);
        assert(pairs.contains_key(p[p.len() - 1]));
        let q = p.map_values(|l: u64| pairs[l]);
        assert(is_walk(edges, q) && q.first() == pairs[x] && q.last() == pairs[y]);
    }
    if depends(d, x, y) {
        let p = choose|p: Seq<u64>| label_walk(d, p, x, y) && p.len() >= 2;
        lemma_walk_to_indices(edges, pairs, labels, p, x, y);
        assert(pairs.contains_key(p[p.len() - 1]));
        let q = p.map_values(|l: u64| pairs[l]);
        assert(is_walk(edges, q) && q.len() >= 2 && q.first() == pairs[x] && q.last() == pairs[y]);
    }
    if pairs.contains_key(y) && reaches(edges, pairs[x], pairs[y]) {
        let q = choose|q: Seq<usize>| is_walk(edges, q) && #[trigger] q.first() == pairs[x] && q.last() == pairs[y];
        lemma_walk_to_labels(edges, pairs, labels, q);
        let p = q.map_values(|t: usize| labels[t as int]);
        assert(label_walk(d, p, x, y));
    }
    if pairs.contains_key(y) && reaches_strictly(edges, pairs[x], pairs[y]) {
        let q = choose|q: Seq<usize>|
            is_walk(edges, q) && q.len() >= 2 && #[trigger] q.first() == pairs[x] && q.last() == pairs[y];
        lemma_walk_to_labels(edges, pairs, labels, q);
        let p = q.map_values(|t: usize| labels[t as int]);
        assert(label_walk(d, p, x, y) && p.len() >= 2);
    }
}

/// Where every edge leads forward in some order of the nodes, no node reaches itself.
pub(crate) proof fn lemma_forward_edges_no_cycle(edges: Seq<(usize, usize)>, n: nat, order: Seq<usize>, p: Seq<usize>)
    requires
        is_topological_order(edges, n, order),
        edges_in_range(edges, n),
        is_walk(edges, p),
        p.len() >= 2,
    ensures
        order.contains(p.first()),
        order.contains(p.last()),
        order.index_of(p.first()) < order.index_of(p.last()),
    decreases p.len(),
{
    let a = p[p.len() - 2];
    let b = p.last();
    assert(has_edge(edges, p[p.len() - 2], p[p.len() - 2 + 1]));
    let k = choose|k: int| 0 <= k < edges.len() && edges[k] == (a, b);
    assert(edges[k].0 < n && edges[k].1 < n);
    assert(order.contains(a) && order.contains(b));
    let i = order.index_of(a);
    let j = order.index_of(b);
    if j <= i {
        assert(!has_edge(edges, order[i], order[j]));
    }
    if p.len() > 2 {
        let rest = p.drop_last();
        assert forall|i: int| 0 <= i < rest.len() - 1 implies has_edge(edges, #[trigger] rest[i], rest[i + 1]) by {
            assert(rest[i] == p[i]);
            assert(rest[i + 1] == p[i + 1]);
        }
        lemma_forward_edges_no_cycle(edges, n, order, rest);
    }
}

/// A set of labels that holds the dependencies of each of its members holds
/// everything that a member leads to.
pub(crate) proof fn lemma_closed_under_walks(deps: spec_fn(u64) -> Seq<u64>, pairs: Map<u64, usize>, p: Seq<u64>, x: u64, y: u64)
    requires
        label_walk(deps, p, x, y),
        pairs.contains_key(x),
        forall|l: u64, d: u64| pairs.contains_key(l) && #[trigger] deps(l).contains(d) ==> pairs.contains_key(d),
    ensures
        pairs.contains_key(y),
    decreases p.len(),
{
    if p.len() > 1 {
        let rest = p.drop_last();
        let z = rest.last();
        assert forall|i: int| 0 <= i < rest.len() - 1 implies deps(#[trigger] rest[i]).contains(rest[i + 1]) by {
            assert(rest[i] == p[i]);
            assert(rest[i + 1] == p[i + 1]);
        }
        lemma_closed_under_walks(deps, pairs, rest, x, z);
        let n = p.len() - 2;
        assert(p[n] == z);
        assert(deps(p[n]).contains(p[n + 1]));
        assert(deps(z).contains(y));
    }
}

/// A walk under one dependency function is a walk under another that agrees
/// with it on the walk's labels.
pub(crate) proof fn lemma_walk_congruence(d1: spec_fn(u64) -> Seq<u64>, d2: spec_fn(u64) -> Seq<u64>, p: Seq<u64>, x: u64, y: u64)
    requires
        label_walk(d1, p, x, y),
        forall|i: int| 0 <= i < p.len() ==> d1(#[trigger] p[i]) == d2(p[i]),
    ensures
        label_walk(d2, p, x, y),
{
}

/// A node that reaches itself carries a label that depends on itself.
pub(crate) proof fn lemma_cycle_label(
    edges: Seq<(usize, usize)>,
    pairs: Map<u64, usize>,
    labels: Seq<u64>,
    deps: spec_fn(u64) -> Seq<u64>,
    index: usize,
)
    requires
        index_model(pairs, labels),
        edges_in_range(edges, labels.len()),
        forall|l: u64| #[trigger] pairs.contains_key(l) ==> label_deps(edges, pairs, labels, l) == deps(l),
        index < labels.len(),
        reaches_strictly(edges, index, index),
    ensures
        depends(deps, labels[index as int], labels[index as int]),
{
    let node = labels[index as int];
    let q = choose|q: Seq<usize>| is_walk(edges, q) && q.len() >= 2 && #[trigger] q.first() == index && q.last() == index;
    lemma_walk_to_labels(edges, pairs, labels, q);
    let p = q.map_values(|t: usize| labels[t as int]);
    assert forall|i: int| 0 <= i < p.len() implies graph_deps(edges, pairs, labels)(#[trigger] p[i]) == deps(p[i]) by {
        assert(q[i] < labels.len());
        assert(pairs.contains_key(labels[q[i] as int]));
    }
    lemma_walk_congruence(graph_deps(edges, pairs, labels), deps, p, node, node);
    assert(label_walk(deps, p, node, node) && p.len() >= 2);
}

/// A walk that starts in a set of labels that holds the dependencies of each
/// of its members stays in the set.
pub(crate) proof fn lemma_walk_inside(deps: spec_fn(u64) -> Seq<u64>, pairs: Map<u64, usize>, p: Seq<u64>, x: u64, y: u64)
    requires
        label_walk(deps, p, x, y),
        pairs.contains_key(x),
        forall|l: u64, d: u64| pairs.contains_key(l) && #[trigger] deps(l).contains(d) ==> pairs.contains_key(d),
    ensures
        forall|i: int| 0 <= i < p.len() ==> pairs.contains_key(#[trigger] p[i]),
    decreases p.len(),
{
    if p.len() > 1 {
        let rest = p.drop_last();
        let z = rest.last();
        assert forall|i: int| 0 <= i < rest.len() - 1 implies deps(#[trigger] rest[i]).contains(rest[i + 1]) by {
            assert(rest[i] == p[i]);
            assert(rest[i + 1] == p[i + 1]);
        }
        lemma_walk_inside(deps, pairs, rest, x, z);
        let n = p.len() - 2;
        assert(p[n] == z);
        assert(deps(p[n]).contains(p[n + 1]));
        assert(pairs.contains_key(rest[n]));
        assert forall|i: int| 0 <= i < p.len() implies pairs.contains_key(#[trigger] p[i]) by {
            if i < rest.len() {
                assert(rest[i] == p[i]);
            }
        }
    }
}

/// In a graph that holds the dependencies of each of its labels and in which
/// no node reaches itself, no label depends on itself.
pub(crate) proof fn lemma_no_label_cycle(
    edges: Seq<(usize, usize)>,
    pairs: Map<u64, usize>,
    labels: Seq<u64>,
    deps: spec_fn(u64) -> Seq<u64>,
    x: u64,
)
    requires
        index_model(pairs, labels),
        edges_in_range(edges, labels.len()),
        forall|l: u64| #[trigger] pairs.contains_key(l) ==> label_deps(edges, pairs, labels, l) == deps(l),
        forall|l: u64, d: u64| pairs.contains_key(l) && #[trigger] deps(l).contains(d) ==> pairs.contains_key(d),
        forall|a: usize| !reaches_strictly(edges, a, a),
        pairs.contains_key(x),
    ensures
        !depends(deps, x, x),
{
    if depends(deps, x, x) {
        let p = choose|p: Seq<u64>| label_walk(deps, p, x, x) && p.len() >= 2;
        lemma_walk_inside(deps, pairs, p, x, x);
        let g = graph_deps(edges, pairs, labels);
        assert forall|i: int| 0 <= i < p.len() implies deps(#[trigger] p[i]) == g(p[i]) by {
            assert(pairs.contains_key(p[i]));
        }
        lemma_walk_congruence(deps, g, p, x, x);
        assert(depends(g, x, x));
        lemma_depends_iff(edges, pairs, labels, x, x);
    }
}

/// A graph whose nodes can be put in an order in which every edge leads
/// forward has no node that reaches itself.
pub(crate) proof fn lemma_sorted_acyclic(edges: Seq<(usize, usize)>, n: nat, order: Seq<usize>)
    requires
        is_topological_order(edges, n, order),
        edges_in_range(edges, n),
    ensures
        forall|a: usize| !reaches_strictly(edges, a, a),
{
    assert forall|a: usize| !reaches_strictly(edges, a, a) by {
        if reaches_strictly(edges, a, a) {
            let p = choose|p: Seq<usize>| is_walk(edges, p) && p.len() >= 2 && #[trigger] p.first() == a && p.last() == a;
            lemma_forward_edges_no_cycle(edges, n, order, p);
        }
    }
}

} // verus!
