//! The order in which the packages of a workspace are shown: a package before
//! the packages it depends on, and by name where dependencies leave a choice.

use super::dep_graph::DepGraph;
use super::package::{
    lemma_name_le_reflexive, lemma_name_le_total, lemma_name_le_transitive, name_le, NameView, Package,
};
use vstd::prelude::*;

verus! {

/// The names of the packages, by position.
pub open spec fn package_names(packages: Seq<Package>) -> Seq<NameView> {
    packages.map_values(|p: Package| p.name@)
}

/// No package outside `placed` depends on the package `y`.
pub open spec fn free_after(g: DepGraph, n: nat, placed: Seq<usize>, y: usize) -> bool {
    forall|z: usize| z < n && !placed.contains(z) ==> !g.depends_on(z as u64, y as u64)
}

/// By name, the package `x` is shown before the package `y`: its name comes
/// first, or the names are equal and `x` stands first in the workspace.
pub open spec fn shown_before(names: Seq<NameView>, x: usize, y: usize) -> bool {
    name_le(names[x as int], names[y as int]) && (names[x as int] == names[y as int] ==> x <= y)
}

/// `order` shows every package once; no package is shown after one that it
/// depends on; and each place is taken by the package that by name is shown
/// before every other package that could stand there, which are those that
/// nothing still to be shown depends on.
pub open spec fn is_display_order(g: DepGraph, names: Seq<NameView>, order: Seq<usize>) -> bool {
    &&& order.len() == names.len()
    &&& order.no_duplicates()
    &&& forall|k: int| 0 <= k < order.len() ==> #[trigger] order[k] < names.len()
    &&& forall|a: int, b: int| 0 <= a < b < order.len() ==> !g.depends_on(#[trigger] order[b] as u64, #[trigger] order[a] as u64)
    &&& forall|a: int, y: usize|
        0 <= a < order.len() && y < names.len() && !order.take(a).contains(y) && #[trigger] free_after(
            g,
            names.len(),
            order.take(a),
            y,
        ) ==> shown_before(names, order[a], y)
}

/// The number of `true`s in `s`.
pub open spec fn count_true(s: Seq<bool>) -> nat
    decreases s.len(),
{
    if s.len() == 0 {
        0
    } else {
        count_true(s.drop_last()) + if s.last() {
            1nat
        } else {
            0nat
        }
    }
}

proof fn lemma_count_true_bound(s: Seq<bool>)
    ensures
        count_true(s) <= s.len(),
        count_true(s) < s.len() ==> exists|i: int| 0 <= i < s.len() && !s[i],
        count_true(s) == s.len() ==> forall|i: int| 0 <= i < s.len() ==> s[i],
    decreases s.len(),
{
    if s.len() > 0 {
        let rest = s.drop_last();
        lemma_count_true_bound(rest);
        if count_true(s) < s.len() {
            if !s.last() {
                assert(!s[s.len() - 1]);
            } else {
                let i = choose|i: int| 0 <= i < rest.len() && !rest[i];
                assert(!s[i]);
            }
        }
        if count_true(s) == s.len() {
            assert forall|i: int| 0 <= i < s.len() implies s[i] by {
                if i < rest.len() {
                    assert(rest[i]);
                }
            }
        }
    }
}

proof fn lemma_count_true_set(s: Seq<bool>, k: int)
    requires
        0 <= k < s.len(),
        !s[k],
    ensures
        count_true(s.update(k, true)) == count_true(s) + 1,
    decreases s.len(),
{
    let t = s.update(k, true);
    if k == s.len() - 1 {
        assert(t.drop_last() =~= s.drop_last());
    } else {
        assert(t.drop_last() =~= s.drop_last().update(k, true));
        lemma_count_true_set(s.drop_last(), k);
    }
}

proof fn lemma_count_true_none(s: Seq<bool>)
    requires
        forall|i: int| 0 <= i < s.len() ==> !s[i],
    ensures
        count_true(s) == 0,
    decreases s.len(),
{
    if s.len() > 0 {
        lemma_count_true_none(s.drop_last());
    }
}

/// Among the positions below `k` that are not placed, one whose list is longest.
proof fn lemma_longest(placed: Seq<bool>, all: Seq<Vec<u64>>, k: int) -> (m: int)
    requires
        0 <= k <= placed.len(),
        placed.len() == all.len(),
        exists|i: int| 0 <= i < k && !placed[i],
    ensures
        0 <= m < k,
        !placed[m],
        forall|j: int| 0 <= j < k && !placed[j] ==> all[j]@.len() <= all[m]@.len(),
    decreases k,
{
    let last = k - 1;
    if exists|i: int| 0 <= i < last && !placed[i] {
        let m = lemma_longest(placed, all, last);
        if !placed[last] && all[last]@.len() > all[m]@.len() {
            last
        } else {
            m
        }
    } else {
        assert(!placed[last]);
        last
    }
}

/// The dependencies of every package, as `all_deps_for` gives them.
pub open spec fn closure_table(g: DepGraph, all: Seq<Vec<u64>>) -> bool {
    forall|k: int|
        0 <= k < all.len() ==> {
            &&& (#[trigger] all[k])@.no_duplicates()
            &&& forall|v: u64| #[trigger] all[k]@.contains(v) <==> g.depends_on(k as u64, v)
        }
}

/// While a package is still to be placed, there is one that nothing still to
/// be placed depends on.
proof fn lemma_some_package_is_free(g: DepGraph, order: Seq<usize>, placed: Seq<bool>, all: Seq<Vec<u64>>) -> (m: usize)
    requires
        g.wf(),
        placed.len() == all.len(),
        all.len() <= usize::MAX,
        closure_table(g, all),
        count_true(placed) < placed.len(),
        forall|x: usize| x < placed.len() ==> (placed[x as int] <==> order.contains(x)),
    ensures
        m < placed.len(),
        !placed[m as int],
        free_after(g, placed.len(), order, m),
{
    lemma_count_true_bound(placed);
    let m = lemma_longest(placed, all, placed.len() as int);
    assert forall|z: usize| z < placed.len() && !order.contains(z) implies !g.depends_on(z as u64, m as usize as u64) by {
        if g.depends_on(z as u64, m as u64) {
            assert(!placed[z as int]);
            assert(all[z as int]@.no_duplicates());
            assert(all[m]@.no_duplicates());
            g.lemma_more_deps(z as u64, m as u64, all[z as int]@, all[m]@);
        }
    }
    m as usize
}

/// Whether `list` holds `x`.
fn holds(list: &Vec<u64>, x: u64) -> (r: bool)
    ensures
        r == list@.contains(x),
{
    let mut i: usize = 0;
    while i < list.len()
        invariant
            i <= list.len(),
            forall|k: int| 0 <= k < i ==> list@[k] != x,
        decreases list.len() - i,
    {
        if list[i] == x {
            return true;
        }
        i += 1;
    }
    false
}

/// Whether no package that is still to be placed depends on the package `y`.
fn is_free(g: &DepGraph, all: &Vec<Vec<u64>>, placed: &Vec<bool>, order: Ghost<Seq<usize>>, y: usize) -> (r: bool)
    requires
        placed@.len() == all@.len(),
        closure_table(*g, all@),
        forall|x: usize| x < placed@.len() ==> (placed@[x as int] <==> order@.contains(x)),
    ensures
        r == free_after(*g, placed@.len(), order@, y),
{
    let n = placed.len();
    let mut z: usize = 0;
    while z < n
        invariant
            z <= n,
            n == placed@.len(),
            n == all@.len(),
            closure_table(*g, all@),
            forall|x: usize| x < placed@.len() ==> (placed@[x as int] <==> order@.contains(x)),
            forall|w: usize| w < z && !order@.contains(w) ==> !g.depends_on(w as u64, y as u64),
        decreases n - z,
    {
        if !placed[z] && holds(&all[z], y as u64) {
            proof {
                assert(all@[z as int]@.contains(y as u64));
                assert(g.depends_on(z as u64, y as u64));
                assert(!order@.contains(z));
                assert(!free_after(*g, placed@.len(), order@, y));
            }
            return false;
        }
        proof {
            if !order@.contains(z) {
                assert(!all@[z as int]@.contains(y as u64));
            }
        }
        z += 1;
    }
    true
}

/// The order in which to show the packages of a workspace whose dependency
/// graph holds them all.
pub fn display_order(packages: &Vec<Package>, graph: &DepGraph) -> (order: Vec<usize>)
    requires
        graph.wf(),
        forall|x: u64| x < packages@.len() ==> #[trigger] graph.has_node(x),
    ensures
        is_display_order(*graph, package_names(packages@), order@),
{
    let n = packages.len();
    let ghost names = package_names(packages@);
    let mut all: Vec<Vec<u64>> = Vec::new();
    let mut placed: Vec<bool> = Vec::new();
    let mut i: usize = 0;
    while i < n
        invariant
            i <= n,
            n == packages@.len(),
            graph.wf(),
            forall|x: u64| x < packages@.len() ==> #[trigger] graph.has_node(x),
            all@.len() == i,
            placed@.len() == i,
            closure_table(*graph, all@),
            forall|k: int| 0 <= k < i ==> !placed@[k],
        decreases n - i,
    {
        let deps = graph.all_deps_for(&(i as u64));
        all.push(deps);
        placed.push(false);
        i += 1;
    }
    let mut order: Vec<usize> = Vec::new();
    proof {
        lemma_count_true_none(placed@);
    }
    while order.len() < n
        invariant
            n == packages@.len(),
            names == package_names(packages@),
            graph.wf(),
            all@.len() == n,
            placed@.len() == n,
            closure_table(*graph, all@),
            order@.len() == count_true(placed@),
            order@.len() <= n,
            order@.no_duplicates(),
            forall|k: int| 0 <= k < order@.len() ==> #[trigger] order@[k] < n,
            forall|x: usize| x < n ==> (placed@[x as int] <==> order@.contains(x)),
            forall|a: int, b: int|
                0 <= a < b < order@.len() ==> !graph.depends_on(#[trigger] order@[b] as u64, #[trigger] order@[a] as u64),
            forall|a: int, z: usize|
                0 <= a < order@.len() && z < n && !order@.contains(z) ==>
                    !#[trigger] graph.depends_on(z as u64, order@[a] as u64),
            forall|a: int, y: usize|
                0 <= a < order@.len() && y < n && !order@.take(a).contains(y) && #[trigger] free_after(
                    *graph,
                    n as nat,
                    order@.take(a),
                    y,
                ) ==> shown_before(names, order@[a], y),
        decreases n - order@.len(),
    {
        let mut best: Option<usize> = None;
        let mut c: usize = 0;
        while c < n
            invariant
                c <= n,
                n == packages@.len(),
                names == package_names(packages@),
                all@.len() == n,
                placed@.len() == n,
                closure_table(*graph, all@),
                forall|x: usize| x < n ==> (placed@[x as int] <==> order@.contains(x)),
                match best {
                    Some(b) => {
                        &&& b < c
                        &&& !order@.contains(b)
                        &&& free_after(*graph, n as nat, order@, b)
                        &&& forall|y: usize|
                            y < c && !order@.contains(y) && free_after(*graph, n as nat, order@, y) ==> shown_before(names, b, y)
                    },
                    None => forall|y: usize| y < c && !order@.contains(y) ==> !free_after(*graph, n as nat, order@, y),
                },
            decreases n - c,
        {
            if !placed[c] && is_free(graph, &all, &placed, Ghost(order@), c) {
                match best {
                    None => {
                        proof {
                            lemma_name_le_reflexive(names[c as int]);
                        }
                        best = Some(c);
                    },
                    Some(b) => {
                        let first = packages[b].name.precedes(&packages[c].name);
                        proof {
                            lemma_name_le_total(names[b as int], names[c as int]);
                            lemma_name_le_reflexive(names[c as int]);
                        }
                        if !first {
                            proof {
                                assert forall|y: usize|
                                    y < c + 1 && !order@.contains(y) && free_after(*graph, n as nat, order@, y) implies
                                    shown_before(names, c, y) by {
                                    if y < c {
                                        assert(shown_before(names, b, y));
                                        lemma_name_le_transitive(names[c as int], names[b as int], names[y as int]);
                                        if names[c as int] == names[y as int] {
                                            lemma_name_le_transitive(names[b as int], names[y as int], names[c as int]);
                                        }
                                    }
                                }
                            }
                            best = Some(c);
                        }
                    },
                }
            }
            c += 1;
        }
        let ghost before = order@;
        let ghost was_placed = placed@;
        match best {
            Some(b) => {
                order.push(b);
                placed.set(b, true);
                proof {
                    lemma_count_true_set(was_placed, b as int);
                    assert forall|x: usize| x < n implies (placed@[x as int] <==> order@.contains(x)) by {
                        if x == b {
                            assert(order@[order@.len() - 1] == b);
                        } else {
                            if before.contains(x) {
                                let k = choose|k: int| 0 <= k < before.len() && before[k] == x;
                                assert(order@[k] == x);
                            }
                            if order@.contains(x) {
                                let k = choose|k: int| 0 <= k < order@.len() && order@[k] == x;
                                assert(before[k] == x);
                            }
                        }
                    }
                    assert forall|a: int, bb: int|
                        0 <= a < bb < order@.len() implies
                        !graph.depends_on(#[trigger] order@[bb] as u64, #[trigger] order@[a] as u64) by {
                        if bb == before.len() {
                            assert(order@[a] == before[a]);
                        } else {
                            assert(order@[a] == before[a]);
                            assert(order@[bb] == before[bb]);
                        }
                    }
                    assert forall|a: int, z: usize|
                        0 <= a < order@.len() && z < n && !order@.contains(z) implies
                        !#[trigger] graph.depends_on(
                        z as u64,
                        order@[a] as u64,
                    ) by {
                        assert(!before.contains(z)) by {
                            if before.contains(z) {
                                let k = choose|k: int| 0 <= k < before.len() && before[k] == z;
                                assert(order@[k] == z);
                            }
                        }
                        if a < before.len() {
                            assert(order@[a] == before[a]);
                        }
                    }
                    assert forall|a: int, y: usize|
                        0 <= a < order@.len() && y < n && !order@.take(a).contains(y) && #[trigger] free_after(
                            *graph,
                            n as nat,
                            order@.take(a),
                            y,
                        ) implies shown_before(names, order@[a], y) by {
                        if a < before.len() {
                            assert(order@.take(a) =~= before.take(a));
                            assert(order@[a] == before[a]);
                        } else {
                            assert(order@.take(a) =~= before);
                        }
                    }
                }
            },
            None => {
                proof {
                    let m = lemma_some_package_is_free(*graph, order@, placed@, all@);
                    assert(false);
                }
            },
        }
    }
    proof {
        assert(is_display_order(*graph, names, order@));
    }
    order
}

/// The positions below `n`.
pub open spec fn positions_below(n: nat) -> Set<usize> {
    Set::new(|x: usize| x < n)
}

proof fn lemma_positions_below(n: nat)
    requires
        n <= usize::MAX,
    ensures
        positions_below(n).finite(),
        positions_below(n).len() == n,
    decreases n,
{
    if n == 0 {
        assert(positions_below(n) =~= Set::<usize>::empty());
    } else {
        lemma_positions_below((n - 1) as nat);
        assert(positions_below(n) =~= positions_below((n - 1) as nat).insert((n - 1) as usize));
    }
}

/// An order that shows each of `n` packages once shows every package.
proof fn lemma_order_shows_all(order: Seq<usize>, n: nat, z: usize)
    requires
        n <= usize::MAX,
        order.len() == n,
        order.no_duplicates(),
        forall|k: int| 0 <= k < order.len() ==> #[trigger] order[k] < n,
        z < n,
    ensures
        order.contains(z),
{
    broadcast use vstd::seq_lib::seq_to_set_is_finite;

    lemma_positions_below(n);
    order.unique_seq_to_set();
    let shown = order.to_set();
    assert(shown.subset_of(positions_below(n))) by {
        assert forall|x: usize| shown.contains(x) implies positions_below(n).contains(x) by {
            let k = choose|k: int| 0 <= k < order.len() && order[k] == x;
            assert(order[k] < n);
        }
    }
    vstd::set_lib::lemma_subset_equality(shown, positions_below(n));
    assert(positions_below(n).contains(z));
}

/// Two packages of which each is shown before the other by name are one.
proof fn lemma_shown_before_antisymmetric(names: Seq<NameView>, x: usize, y: usize)
    requires
        shown_before(names, x, y),
        shown_before(names, y, x),
    ensures
        x == y,
{
    let a = names[x as int];
    let b = names[y as int];
    crate::workspace::package::lemma_name_le_antisymmetric(a, b);
}

/// The package at a place of a display order is one that nothing shown at
/// or after that place depends on.
proof fn lemma_shown_is_free(g: DepGraph, names: Seq<NameView>, order: Seq<usize>, a: int)
    requires
        g.wf(),
        names.len() <= usize::MAX,
        is_display_order(g, names, order),
        0 <= a < order.len(),
    ensures
        !order.take(a).contains(order[a]),
        free_after(g, names.len(), order.take(a), order[a]),
{
    assert(!order.take(a).contains(order[a])) by {
        if order.take(a).contains(order[a]) {
            let k = choose|k: int| 0 <= k < order.take(a).len() && order.take(a)[k] == order[a];
            assert(order[k] == order[a]);
        }
    }
    assert forall|z: usize| z < names.len() && !order.take(a).contains(z) implies !g.depends_on(z as u64, order[a] as u64) by {
        lemma_order_shows_all(order, names.len(), z);
        let c = choose|c: int| 0 <= c < order.len() && order[c] == z;
        if c < a {
            assert(order.take(a)[c] == z);
        } else if c == a {
            g.lemma_acyclic(z as u64);
        } else {
            assert(!g.depends_on(order[c] as u64, order[a] as u64));
        }
    }
}

/// There is one display order: two orders that both are display orders of
/// the same packages are the same.
pub proof fn lemma_display_order_is_unique(g: DepGraph, names: Seq<NameView>, first: Seq<usize>, second: Seq<usize>)
    requires
        g.wf(),
        names.len() <= usize::MAX,
        is_display_order(g, names, first),
        is_display_order(g, names, second),
    ensures
        first == second,
{
    assert forall|a: int| 0 <= a < first.len() implies first[a] == second[a] by {
        lemma_same_up_to(g, names, first, second, a);
    }
    assert(first =~= second);
}

proof fn lemma_same_up_to(g: DepGraph, names: Seq<NameView>, first: Seq<usize>, second: Seq<usize>, a: int)
    requires
        g.wf(),
        names.len() <= usize::MAX,
        is_display_order(g, names, first),
        is_display_order(g, names, second),
        0 <= a < first.len(),
    ensures
        first.take(a + 1) == second.take(a + 1),
        first[a] == second[a],
    decreases a,
{
    if a > 0 {
        lemma_same_up_to(g, names, first, second, a - 1);
    }
    assert(first.take(a) =~= second.take(a)) by {
        if a > 0 {
            assert(first.take(a) =~= first.take(a - 1 + 1));
            assert(second.take(a) =~= second.take(a - 1 + 1));
        }
    }
    lemma_shown_is_free(g, names, first, a);
    lemma_shown_is_free(g, names, second, a);
    assert(first[a] < names.len());
    assert(second[a] < names.len());
    assert(shown_before(names, first[a], second[a]));
    assert(shown_before(names, second[a], first[a]));
    lemma_shown_before_antisymmetric(names, first[a], second[a]);
    assert(first.take(a + 1) =~= first.take(a).push(first[a]));
    assert(second.take(a + 1) =~= second.take(a).push(second[a]));
}

} // verus!
