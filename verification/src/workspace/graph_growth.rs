//! What holds of a graph while it is grown from its roots, step by step.

use super::dep_graph::{edge_total, exceeds_capacity, label_walk, leads_to, overflows, reachable_from};
use super::graph_model::{
    edges_in_range, index_model, label_deps, lemma_closed_under_walks, lemma_dep_step, lemma_out_targets_edges,
    lemma_out_targets_push,
};
use super::graph_store::{inserted, out_targets, MAX_EDGES, MAX_NODES};
use vstd::prelude::*;

verus! {

/// The label `l` waits on the stack to be expanded.
pub open spec fn on_stack(stack: Seq<(usize, u64)>, l: u64) -> bool {
    exists|k: int| 0 <= k < stack.len() && (#[trigger] stack[k]).1 == l
}

/// The first `j` edges that leave the node of `l` lead to its first `j`
/// dependencies, in their order, and no other edge leaves it.
pub open spec fn expanded_to(
    edges: Seq<(usize, usize)>,
    pairs: Map<u64, usize>,
    labels: Seq<u64>,
    deps: spec_fn(u64) -> Seq<u64>,
    l: u64,
    j: nat,
) -> bool {
    let o = out_targets(edges, pairs[l]);
    &&& j <= deps(l).len()
    &&& o.len() == j
    &&& forall|i: int| 0 <= i < o.len() ==> #[trigger] o[i] < labels.len() && labels[o[i] as int] == deps(l)[i]
}

/// What holds of a graph while it grows: `done` lists the labels whose
/// dependencies are all recorded, `stack` those that wait, and `cur`, if any,
/// the one that is being expanded, with `j` of its dependencies recorded.
#[verifier::opaque]
pub open spec fn growing(
    edges: Seq<(usize, usize)>,
    pairs: Map<u64, usize>,
    labels: Seq<u64>,
    stack: Seq<(usize, u64)>,
    done: Seq<u64>,
    cur: Option<u64>,
    j: nat,
    deps: spec_fn(u64) -> Seq<u64>,
    roots: Seq<u64>,
) -> bool {
    &&& labels.len() <= MAX_NODES
    &&& edges.len() <= MAX_EDGES
    &&& index_model(pairs, labels)
    &&& edges_in_range(edges, labels.len())
    &&& forall|i: int| 0 <= i < labels.len() ==> reachable_from(deps, roots, #[trigger] labels[i])
    &&& forall|k: int| 0 <= k < stack.len() ==> pairs.contains_key((#[trigger] stack[k]).1) && pairs[stack[k].1] == stack[k].0
    &&& forall|a: int, b: int| 0 <= a < b < stack.len() ==> (#[trigger] stack[a]).1 != (#[trigger] stack[b]).1
    &&& done.no_duplicates()
    &&& forall|k: int| 0 <= k < done.len() ==> {
        &&& pairs.contains_key(#[trigger] done[k])
        &&& !on_stack(stack, done[k])
        &&& expanded_to(edges, pairs, labels, deps, done[k], deps(done[k]).len())
    }
    &&& forall|l: u64| #[trigger] pairs.contains_key(l) ==> done.contains(l) || on_stack(stack, l) || cur == Some(l)
    &&& forall|l: u64|
        #[trigger] pairs.contains_key(l) && !done.contains(l) && cur != Some(l) ==> out_targets(edges, pairs[l]).len() == 0
    &&& match cur {
        Some(c) => {
            &&& pairs.contains_key(c)
            &&& !done.contains(c)
            &&& !on_stack(stack, c)
            &&& expanded_to(edges, pairs, labels, deps, c, j)
            &&& edges.len() == edge_total(deps, done) + j
        },
        None => edges.len() == edge_total(deps, done),
    }
}

/// No edge leaves a node that no edge mentions.
pub(crate) proof fn lemma_no_out_targets(edges: Seq<(usize, usize)>, n: nat, a: usize)
    requires
        edges_in_range(edges, n),
        a >= n,
    ensures
        out_targets(edges, a).len() == 0,
{
    let o = out_targets(edges, a);
    if o.len() > 0 {
        lemma_out_targets_edges(edges, a);
        assert(o.contains(o[0]));
        let k = choose|k: int| 0 <= k < edges.len() && edges[k] == (a, o[0]);
        assert(edges[k].0 < n);
    }
}

/// A walk can be taken one step further.
pub(crate) proof fn lemma_extend_walk(deps: spec_fn(u64) -> Seq<u64>, p: Seq<u64>, x: u64, y: u64, z: u64)
    requires
        label_walk(deps, p, x, y),
        deps(y).contains(z),
    ensures
        label_walk(deps, p.push(z), x, z),
{
    let q = p.push(z);
    assert forall|i: int| 0 <= i < q.len() - 1 implies deps(#[trigger] q[i]).contains(q[i + 1]) by {
        if i < p.len() - 1 {
            assert(q[i] == p[i]);
            assert(q[i + 1] == p[i + 1]);
        }
    }
}

/// What depends on a reachable label's dependency chain is reachable.
pub(crate) proof fn lemma_reachable_step(deps: spec_fn(u64) -> Seq<u64>, roots: Seq<u64>, y: u64, z: u64)
    requires
        reachable_from(deps, roots, y),
        deps(y).contains(z),
    ensures
        reachable_from(deps, roots, z),
{
    let k = choose|k: int| 0 <= k < roots.len() && leads_to(deps, #[trigger] roots[k], y);
    let p = choose|p: Seq<u64>| label_walk(deps, p, roots[k], y);
    lemma_extend_walk(deps, p, roots[k], y, z);
    assert(leads_to(deps, roots[k], z));
}

/// A root is reachable.
pub(crate) proof fn lemma_root_reachable(deps: spec_fn(u64) -> Seq<u64>, roots: Seq<u64>, k: int)
    requires
        0 <= k < roots.len(),
    ensures
        reachable_from(deps, roots, roots[k]),
{
    assert(label_walk(deps, seq![roots[k]], roots[k], roots[k]));
    assert(leads_to(deps, roots[k], roots[k]));
}

/// The labels of a graph under construction are distinct.
pub(crate) proof fn lemma_labels_distinct(pairs: Map<u64, usize>, labels: Seq<u64>)
    requires
        index_model(pairs, labels),
    ensures
        labels.no_duplicates(),
{
    assert forall|a: int, b: int| 0 <= a < labels.len() && 0 <= b < labels.len() && a != b implies labels[a] != labels[b] by {
        assert(pairs[labels[a]] == a);
        assert(pairs[labels[b]] == b);
    }
}

/// A graph without nodes is growing.
pub(crate) proof fn lemma_grow_start(deps: spec_fn(u64) -> Seq<u64>, roots: Seq<u64>)
    ensures
        growing(Seq::empty(), Map::empty(), Seq::empty(), Seq::empty(), Seq::empty(), None, 0, deps, roots),
{
    reveal(growing);
}

/// Taking the top of the stack makes it the label that is being expanded.
pub(crate) proof fn lemma_grow_pop(
    edges: Seq<(usize, usize)>,
    pairs: Map<u64, usize>,
    labels: Seq<u64>,
    before: Seq<(usize, u64)>,
    done: Seq<u64>,
    deps: spec_fn(u64) -> Seq<u64>,
    roots: Seq<u64>,
)
    requires
        growing(edges, pairs, labels, before, done, None, 0, deps, roots),
        before.len() > 0,
    ensures
        growing(edges, pairs, labels, before.drop_last(), done, Some(before.last().1), 0, deps, roots),
        pairs.contains_key(before.last().1),
        pairs[before.last().1] == before.last().0,
        before.last().0 < labels.len(),
        reachable_from(deps, roots, before.last().1),
{
    reveal(growing);
    let stack = before.drop_last();
    let el = before.last().1;
    assert(before[before.len() - 1].1 == el);
    assert(on_stack(before, el));
    assert(!done.contains(el));
    assert(!on_stack(stack, el)) by {
        if on_stack(stack, el) {
            let k = choose|k: int| 0 <= k < stack.len() && (#[trigger] stack[k]).1 == el;
            assert(before[k].1 == el);
        }
    }
    assert forall|k: int| 0 <= k < done.len() implies !on_stack(stack, #[trigger] done[k]) by {
        if on_stack(stack, done[k]) {
            let m = choose|m: int| 0 <= m < stack.len() && (#[trigger] stack[m]).1 == done[k];
            assert(before[m].1 == done[k]);
        }
    }
    assert forall|l: u64|
        #[trigger] pairs.contains_key(l) implies
        done.contains(l) || on_stack(stack, l) || Some(el) == Some(l) by {
        if !done.contains(l) && l != el {
            let k = choose|k: int| 0 <= k < before.len() && (#[trigger] before[k]).1 == l;
            assert(stack[k].1 == l);
        }
    }
    assert(labels[pairs[el] as int] == el);
    assert forall|k: int|
        0 <= k < stack.len() implies
        pairs.contains_key((#[trigger] stack[k]).1) && pairs[stack[k].1] == stack[k].0 by {
        assert(stack[k] == before[k]);
    }
    assert forall|a: int, b: int| 0 <= a < b < stack.len() implies (#[trigger] stack[a]).1 != (#[trigger] stack[b]).1 by {
        assert(stack[a] == before[a]);
        assert(stack[b] == before[b]);
    }
}

/// A label that is met for the first time gets the next node and waits on the stack.
pub(crate) proof fn lemma_grow_node(
    edges: Seq<(usize, usize)>,
    old_pairs: Map<u64, usize>,
    old_labels: Seq<u64>,
    old_stack: Seq<(usize, u64)>,
    done: Seq<u64>,
    cur: Option<u64>,
    j: nat,
    deps: spec_fn(u64) -> Seq<u64>,
    roots: Seq<u64>,
    dep: u64,
)
    requires
        growing(edges, old_pairs, old_labels, old_stack, done, cur, j, deps, roots),
        !old_pairs.contains_key(dep),
        reachable_from(deps, roots, dep),
        old_labels.len() < MAX_NODES,
    ensures
        growing(
            edges,
            inserted(old_pairs, dep, old_labels.len() as usize),
            old_labels.push(dep),
            old_stack.push((old_labels.len() as usize, dep)),
            done,
            cur,
            j,
            deps,
            roots,
        ),
        forall|l: u64|
            old_pairs.contains_key(l) ==> #[trigger] inserted(old_pairs, dep, old_labels.len() as usize).contains_key(l)
            && inserted(old_pairs, dep, old_labels.len() as usize)[l] == old_pairs[l],
        inserted(old_pairs, dep, old_labels.len() as usize)[dep] == old_labels.len(),
{
    reveal(growing);
    let dep_idx = old_labels.len() as usize;
    let pairs = inserted(old_pairs, dep, dep_idx);
    let labels = old_labels.push(dep);
    let stack = old_stack.push((dep_idx, dep));
    assert forall|l: u64| old_pairs.contains_key(l) implies #[trigger] pairs.contains_key(l) && pairs[l] == old_pairs[l] by {}
    assert(index_model(pairs, labels)) by {
        assert forall|i: int| 0 <= i < labels.len() implies pairs.contains_key(#[trigger] labels[i]) && pairs[labels[i]] == i by {
            if i < old_labels.len() {
                assert(old_pairs.contains_key(old_labels[i]));
            }
        }
        assert forall|l: u64|
            #[trigger] pairs.contains_key(l) implies
            pairs[l] < labels.len() && labels[pairs[l] as int] == l by {
            if l != dep {
                assert(old_pairs.contains_key(l));
            }
        }
    }
    assert forall|i: int| 0 <= i < labels.len() implies reachable_from(deps, roots, #[trigger] labels[i]) by {
        if i < old_labels.len() {
            assert(labels[i] == old_labels[i]);
        }
    }
    assert forall|k: int|
        0 <= k < stack.len() implies
        pairs.contains_key((#[trigger] stack[k]).1) && pairs[stack[k].1] == stack[k].0 by {
        if k < old_stack.len() {
            assert(stack[k] == old_stack[k]);
            assert(old_pairs.contains_key(old_stack[k].1));
        }
    }
    assert forall|a: int, b: int| 0 <= a < b < stack.len() implies (#[trigger] stack[a]).1 != (#[trigger] stack[b]).1 by {
        assert(stack[a] == old_stack[a]);
        assert(old_pairs.contains_key(old_stack[a].1));
        if b < old_stack.len() {
            assert(stack[b] == old_stack[b]);
        }
    }
    assert forall|l: u64| on_stack(stack, l) implies l == dep || on_stack(old_stack, l) by {
        let m = choose|m: int| 0 <= m < stack.len() && (#[trigger] stack[m]).1 == l;
        if m < old_stack.len() {
            assert(old_stack[m].1 == l);
        }
    }
    assert forall|l: u64| on_stack(old_stack, l) implies on_stack(stack, l) by {
        let m = choose|m: int| 0 <= m < old_stack.len() && (#[trigger] old_stack[m]).1 == l;
        assert(stack[m].1 == l);
    }
    assert(on_stack(stack, dep)) by {
        assert(stack[stack.len() - 1].1 == dep);
    }
    assert forall|k: int| 0 <= k < done.len() implies {
        &&& pairs.contains_key(#[trigger] done[k])
        &&& !on_stack(stack, done[k])
        &&& expanded_to(edges, pairs, labels, deps, done[k], deps(done[k]).len())
    } by {
        assert(old_pairs.contains_key(done[k]));
        assert(expanded_to(edges, old_pairs, old_labels, deps, done[k], deps(done[k]).len()));
        let o = out_targets(edges, pairs[done[k]]);
        assert forall|i: int|
            0 <= i < o.len() implies
            #[trigger] o[i] < labels.len() && labels[o[i] as int] == deps(done[k])[i] by {
            assert(o[i] < old_labels.len());
        }
    }
    assert forall|l: u64| #[trigger] pairs.contains_key(l) implies done.contains(l) || on_stack(stack, l) || cur == Some(l) by {
        if l != dep {
            assert(old_pairs.contains_key(l));
        }
    }
    lemma_no_out_targets(edges, old_labels.len(), dep_idx);
    assert forall|l: u64|
        #[trigger] pairs.contains_key(l) && !done.contains(l) && cur != Some(l) implies
        out_targets(edges, pairs[l]).len() == 0 by {
        if l != dep {
            assert(old_pairs.contains_key(l));
        }
    }
    match cur {
        Some(c) => {
            assert(old_pairs.contains_key(c));
            assert(expanded_to(edges, old_pairs, old_labels, deps, c, j));
            let o = out_targets(edges, pairs[c]);
            assert forall|i: int|
                0 <= i < o.len() implies
                #[trigger] o[i] < labels.len() && labels[o[i] as int] == deps(c)[i] by {
                assert(o[i] < old_labels.len());
            }
        },
        None => {},
    }
}

/// Recording the next dependency of the label that is being expanded.
pub(crate) proof fn lemma_grow_edge(
    old_edges: Seq<(usize, usize)>,
    pairs: Map<u64, usize>,
    labels: Seq<u64>,
    stack: Seq<(usize, u64)>,
    done: Seq<u64>,
    el: u64,
    j: nat,
    deps: spec_fn(u64) -> Seq<u64>,
    roots: Seq<u64>,
    dep: u64,
)
    requires
        growing(old_edges, pairs, labels, stack, done, Some(el), j, deps, roots),
        j < deps(el).len(),
        dep == deps(el)[j as int],
        pairs.contains_key(dep),
        old_edges.len() < MAX_EDGES,
    ensures
        growing(old_edges.push((pairs[el], pairs[dep])), pairs, labels, stack, done, Some(el), j + 1, deps, roots),
{
    reveal(growing);
    let idx = pairs[el];
    let dep_idx = pairs[dep];
    let edges = old_edges.push((idx, dep_idx));
    assert forall|l: u64| #[trigger] pairs.contains_key(l) implies out_targets(edges, pairs[l]) == (if l == el {
        out_targets(old_edges, pairs[l]).push(dep_idx)
    } else {
        out_targets(old_edges, pairs[l])
    }) by {
        lemma_out_targets_push(old_edges, (idx, dep_idx), pairs[l]);
        assert(labels[pairs[l] as int] == l);
    }
    assert(edges_in_range(edges, labels.len())) by {
        assert forall|k: int|
            0 <= k < edges.len() implies
            (#[trigger] edges[k]).0 < labels.len() && edges[k].1 < labels.len() by {
            if k < old_edges.len() {
                assert(edges[k] == old_edges[k]);
            }
        }
    }
    assert forall|k: int| 0 <= k < done.len() implies {
        &&& pairs.contains_key(#[trigger] done[k])
        &&& !on_stack(stack, done[k])
        &&& expanded_to(edges, pairs, labels, deps, done[k], deps(done[k]).len())
    } by {
        assert(expanded_to(old_edges, pairs, labels, deps, done[k], deps(done[k]).len()));
        assert(pairs.contains_key(done[k]));
    }
    assert(expanded_to(edges, pairs, labels, deps, el, j + 1)) by {
        assert(expanded_to(old_edges, pairs, labels, deps, el, j));
        assert(pairs.contains_key(el));
        assert(labels[dep_idx as int] == dep);
        let o = out_targets(edges, pairs[el]);
        let oo = out_targets(old_edges, pairs[el]);
        assert(o == oo.push(dep_idx));
        assert forall|i: int| 0 <= i < o.len() implies #[trigger] o[i] < labels.len() && labels[o[i] as int] == deps(el)[i] by {
            if i < oo.len() {
                assert(o[i] == oo[i]);
            }
        }
    }
    assert forall|l: u64|
        #[trigger] pairs.contains_key(l) && !done.contains(l) && Some(el) != Some(l) implies
        out_targets(edges, pairs[l]).len() == 0 by {}
}

/// A label whose dependencies are all recorded is done.
pub(crate) proof fn lemma_grow_finish(
    edges: Seq<(usize, usize)>,
    pairs: Map<u64, usize>,
    labels: Seq<u64>,
    stack: Seq<(usize, u64)>,
    old_done: Seq<u64>,
    el: u64,
    deps: spec_fn(u64) -> Seq<u64>,
    roots: Seq<u64>,
)
    requires
        growing(edges, pairs, labels, stack, old_done, Some(el), deps(el).len(), deps, roots),
    ensures
        growing(edges, pairs, labels, stack, old_done.push(el), None, 0, deps, roots),
{
    reveal(growing);
    let done = old_done.push(el);
    assert(done.drop_last() =~= old_done);
    assert forall|l: u64| done.contains(l) <==> old_done.contains(l) || l == el by {
        if done.contains(l) {
            let k = choose|k: int| 0 <= k < done.len() && done[k] == l;
            if k < old_done.len() {
                assert(old_done[k] == l);
            }
        }
        if old_done.contains(l) {
            let k = choose|k: int| 0 <= k < old_done.len() && old_done[k] == l;
            assert(done[k] == l);
        }
        if l == el {
            assert(done[done.len() - 1] == l);
        }
    }
    assert(done.no_duplicates()) by {
        assert forall|a: int, b: int| 0 <= a < b < done.len() implies done[a] != done[b] by {
            assert(done[a] == old_done[a]);
            assert(old_done.contains(old_done[a]));
            if b < old_done.len() {
                assert(done[b] == old_done[b]);
            }
        }
    }
    assert forall|k: int| 0 <= k < done.len() implies {
        &&& pairs.contains_key(#[trigger] done[k])
        &&& !on_stack(stack, done[k])
        &&& expanded_to(edges, pairs, labels, deps, done[k], deps(done[k]).len())
    } by {
        if k < old_done.len() {
            assert(done[k] == old_done[k]);
        }
    }
}

/// One label more than a graph has nodes for.
pub(crate) proof fn lemma_overflow_nodes(
    edges: Seq<(usize, usize)>,
    pairs: Map<u64, usize>,
    labels: Seq<u64>,
    stack: Seq<(usize, u64)>,
    done: Seq<u64>,
    cur: Option<u64>,
    j: nat,
    deps: spec_fn(u64) -> Seq<u64>,
    roots: Seq<u64>,
    dep: u64,
)
    requires
        growing(edges, pairs, labels, stack, done, cur, j, deps, roots),
        !pairs.contains_key(dep),
        reachable_from(deps, roots, dep),
        labels.len() >= MAX_NODES,
    ensures
        exceeds_capacity(deps, roots),
{
    reveal(growing);
    lemma_labels_distinct(pairs, labels);
    let s = labels.push(dep);
    assert forall|a: int, b: int| 0 <= a < b < s.len() implies s[a] != s[b] by {
        assert(s[a] == labels[a]);
        assert(pairs.contains_key(labels[a]));
        if b < labels.len() {
            assert(s[b] == labels[b]);
        }
    }
    assert forall|i: int| 0 <= i < s.len() implies reachable_from(deps, roots, #[trigger] s[i]) by {
        if i < labels.len() {
            assert(s[i] == labels[i]);
        }
    }
    assert(overflows(deps, roots, s));
}

/// One dependency more than a graph has edges for.
pub(crate) proof fn lemma_overflow_edges(
    edges: Seq<(usize, usize)>,
    pairs: Map<u64, usize>,
    labels: Seq<u64>,
    stack: Seq<(usize, u64)>,
    done: Seq<u64>,
    el: u64,
    j: nat,
    deps: spec_fn(u64) -> Seq<u64>,
    roots: Seq<u64>,
)
    requires
        growing(edges, pairs, labels, stack, done, Some(el), j, deps, roots),
        j < deps(el).len(),
        edges.len() >= MAX_EDGES,
    ensures
        exceeds_capacity(deps, roots),
{
    reveal(growing);
    let s = done.push(el);
    assert(s.drop_last() =~= done);
    assert forall|a: int, b: int| 0 <= a < b < s.len() implies s[a] != s[b] by {
        assert(s[a] == done[a]);
        assert(done.contains(done[a]));
        if b < done.len() {
            assert(s[b] == done[b]);
        }
    }
    assert forall|i: int| 0 <= i < s.len() implies reachable_from(deps, roots, #[trigger] s[i]) by {
        let l = s[i];
        if i < done.len() {
            assert(s[i] == done[i]);
        }
        assert(pairs.contains_key(l));
        assert(labels[pairs[l] as int] == l);
    }
    assert(overflows(deps, roots, s));
}

/// The dependencies of a list of labels are those of the list without one
/// of them, and those of that one.
pub(crate) proof fn lemma_edge_total_remove(deps: spec_fn(u64) -> Seq<u64>, s: Seq<u64>, i: int)
    requires
        0 <= i < s.len(),
    ensures
        edge_total(deps, s) == edge_total(deps, s.remove(i)) + deps(s[i]).len(),
    decreases s.len(),
{
    if i == s.len() - 1 {
        assert(s.remove(i) =~= s.drop_last());
    } else {
        assert(s.remove(i).drop_last() =~= s.drop_last().remove(i));
        assert(s.remove(i).last() == s.last());
        lemma_edge_total_remove(deps, s.drop_last(), i);
    }
}

/// Distinct labels that all stand in a list of distinct labels are not more
/// than the labels of the list, and do not have more dependencies.
pub(crate) proof fn lemma_sublist_is_smaller(deps: spec_fn(u64) -> Seq<u64>, s: Seq<u64>, all: Seq<u64>)
    requires
        s.no_duplicates(),
        all.no_duplicates(),
        forall|i: int| 0 <= i < s.len() ==> all.contains(#[trigger] s[i]),
    ensures
        s.len() <= all.len(),
        edge_total(deps, s) <= edge_total(deps, all),
    decreases all.len(),
{
    if all.len() == 0 {
        if s.len() > 0 {
            assert(all.contains(s[0]));
        }
    } else {
        let last = all.last();
        let rest = all.drop_last();
        assert(rest.no_duplicates());
        if s.contains(last) {
            let i = choose|i: int| 0 <= i < s.len() && s[i] == last;
            let t = s.remove(i);
            lemma_edge_total_remove(deps, s, i);
            assert(t.no_duplicates()) by {
                assert forall|a: int, b: int| 0 <= a < b < t.len() implies t[a] != t[b] by {
                    let a2 = if a < i { a } else { a + 1 };
                    let b2 = if b < i { b } else { b + 1 };
                    assert(t[a] == s[a2]);
                    assert(t[b] == s[b2]);
                }
            }
            assert forall|k: int| 0 <= k < t.len() implies rest.contains(#[trigger] t[k]) by {
                let k2 = if k < i { k } else { k + 1 };
                assert(t[k] == s[k2]);
                assert(all.contains(s[k2]));
                let m = choose|m: int| 0 <= m < all.len() && all[m] == s[k2];
                assert(s[k2] != s[i]);
                assert(rest[m] == s[k2]);
            }
            lemma_sublist_is_smaller(deps, t, rest);
        } else {
            assert forall|k: int| 0 <= k < s.len() implies rest.contains(#[trigger] s[k]) by {
                assert(all.contains(s[k]));
                let m = choose|m: int| 0 <= m < all.len() && all[m] == s[k];
                assert(s.contains(s[k]));
                assert(rest[m] == s[k]);
            }
            lemma_sublist_is_smaller(deps, s, rest);
        }
    }
}

/// When nothing waits, the graph holds what is reachable from the roots and
/// the dependencies of each label.
pub(crate) proof fn lemma_grow_end(
    edges: Seq<(usize, usize)>,
    pairs: Map<u64, usize>,
    labels: Seq<u64>,
    done: Seq<u64>,
    deps: spec_fn(u64) -> Seq<u64>,
    roots: Seq<u64>,
)
    requires
        growing(edges, pairs, labels, Seq::empty(), done, None, 0, deps, roots),
        forall|k: int| 0 <= k < roots.len() ==> pairs.contains_key(#[trigger] roots[k]),
    ensures
        index_model(pairs, labels),
        edges_in_range(edges, labels.len()),
        forall|l: u64| #[trigger] pairs.contains_key(l) ==> label_deps(edges, pairs, labels, l) == deps(l),
        forall|l: u64, d: u64| pairs.contains_key(l) && #[trigger] deps(l).contains(d) ==> pairs.contains_key(d),
        forall|x: u64| #[trigger] pairs.contains_key(x) <==> reachable_from(deps, roots, x),
        !exceeds_capacity(deps, roots),
{
    reveal(growing);
    let stack = Seq::<(usize, u64)>::empty();
    assert forall|l: u64| #[trigger] pairs.contains_key(l) implies done.contains(l) by {
        if on_stack(stack, l) {
        }
    }
    assert forall|l: u64| #[trigger] pairs.contains_key(l) implies label_deps(edges, pairs, labels, l) == deps(l) by {
        let k = choose|k: int| 0 <= k < done.len() && done[k] == l;
        assert(expanded_to(edges, pairs, labels, deps, done[k], deps(done[k]).len()));
        assert(label_deps(edges, pairs, labels, l) =~= deps(l));
    }
    assert forall|l: u64, d: u64| pairs.contains_key(l) && #[trigger] deps(l).contains(d) implies pairs.contains_key(d) by {
        assert(label_deps(edges, pairs, labels, l) == deps(l));
        lemma_dep_step(edges, pairs, labels, l, d);
    }
    assert forall|x: u64| #[trigger] pairs.contains_key(x) <==> reachable_from(deps, roots, x) by {
        if pairs.contains_key(x) {
            assert(labels[pairs[x] as int] == x);
        }
        if reachable_from(deps, roots, x) {
            let k = choose|k: int| 0 <= k < roots.len() && leads_to(deps, #[trigger] roots[k], x);
            let p = choose|p: Seq<u64>| label_walk(deps, p, roots[k], x);
            lemma_closed_under_walks(deps, pairs, p, roots[k], x);
        }
    }
    lemma_labels_distinct(pairs, labels);
    assert forall|s: Seq<u64>| !overflows(deps, roots, s) by {
        if overflows(deps, roots, s) {
            assert forall|i: int| 0 <= i < s.len() implies done.contains(#[trigger] s[i]) && labels.contains(s[i]) by {
                assert(pairs.contains_key(s[i]));
                assert(labels[pairs[s[i]] as int] == s[i]);
            }
            lemma_sublist_is_smaller(deps, s, labels);
            lemma_sublist_is_smaller(deps, s, done);
        }
    }
}

} // verus!
