use depot::workspace::dep_graph::{DepGraph, GraphError};
use std::collections::HashSet;

fn set(items: &[u64]) -> HashSet<u64> {
    items.iter().copied().collect()
}

fn diamond(i: &u64) -> Vec<u64> {
    match i {
        0 => vec![2],
        1 => vec![2],
        2 => vec![3],
        3 => vec![],
        _ => unreachable!(),
    }
}

#[test]
fn dep_graph_basic() {
    let dg = match DepGraph::build(vec![0, 1], |_| panic!(), diamond) {
        Ok(dg) => dg,
        Err(_) => panic!("the graph has no cycle"),
    };

    let z_idx = dg.index(&0);
    assert_eq!(dg.value(z_idx), 0);

    assert_eq!(dg.nodes().iter().copied().collect::<HashSet<_>>(), set(&[0, 1, 2, 3]));

    assert!(dg.is_dependent_on(&0, &2));
    assert!(dg.is_dependent_on(&0, &3));
    assert!(!dg.is_dependent_on(&0, &1));

    assert_eq!(dg.immediate_deps_for(&0).iter().copied().collect::<HashSet<_>>(), set(&[2]));

    assert_eq!(dg.all_deps_for(&0).iter().copied().collect::<HashSet<_>>(), set(&[2, 3]));

    assert_eq!(dg.roots().iter().copied().collect::<HashSet<_>>(), set(&[0, 1]))
}

#[test]
fn dep_graph_cycle() {
    let dg = DepGraph::build(
        vec![0],
        |i| i.to_string(),
        |i| match i {
            0 => vec![1],
            1 => vec![0],
            _ => unreachable!(),
        },
    );
    assert!(dg.is_err());
}

#[test]
fn dep_graph_cycle_names_a_node_on_it() {
    let dg = DepGraph::build(
        vec![5],
        |i| format!("n{i}"),
        |i| match i {
            5 => vec![0],
            0 => vec![1],
            1 => vec![0],
            _ => unreachable!(),
        },
    );
    match dg {
        Err(GraphError::CycleDetected { node, name }) => {
            assert!(node == 0 || node == 1);
            assert_eq!(name, format!("n{node}"));
        }
        _ => panic!("a cycle must be reported"),
    }
}

#[test]
fn dep_graph_self_loop_is_a_cycle() {
    let dg = DepGraph::build(vec![7], |i| i.to_string(), |_| vec![7]);
    match dg {
        Err(GraphError::CycleDetected { node, name }) => {
            assert_eq!(node, 7);
            assert_eq!(name, "7");
        }
        _ => panic!("a self loop is a cycle"),
    }
}

#[test]
fn dep_graph_never_lists_a_node_among_its_own_deps() {
    let dg = match DepGraph::build(vec![0, 1], |i| i.to_string(), diamond) {
        Ok(dg) => dg,
        Err(_) => panic!("the graph has no cycle"),
    };
    for x in dg.nodes() {
        assert!(!dg.all_deps_for(&x).contains(&x));
        assert!(!dg.is_dependent_on(&x, &x));
    }
}

#[test]
fn dep_graph_immediate_deps_come_last_given_first() {
    let dg = match DepGraph::build(vec![0], |i| i.to_string(), |i| if *i == 0 { vec![10, 20, 30] } else { vec![] }) {
        Ok(dg) => dg,
        Err(_) => panic!("the graph has no cycle"),
    };
    assert_eq!(dg.immediate_deps_for(&0), vec![30, 20, 10]);
    assert_eq!(dg.immediate_deps_for(&10), Vec::<u64>::new());
    assert_eq!(dg.all_deps_for(&0).len(), 3);
}

#[test]
fn dep_graph_repeated_roots_make_one_node() {
    let dg = match DepGraph::build(vec![3, 3, 4], |i| i.to_string(), |i| if *i == 3 { vec![4] } else { vec![] }) {
        Ok(dg) => dg,
        Err(_) => panic!("the graph has no cycle"),
    };
    assert_eq!(dg.nodes().len(), 2);
    assert_eq!(dg.roots(), &vec![3, 3, 4]);
    assert!(dg.is_dependent_on(&3, &4));
    assert!(!dg.is_dependent_on(&4, &3));
}

#[test]
fn dep_graph_keeps_only_what_roots_reach() {
    let dg = match DepGraph::build(vec![2], |i| i.to_string(), diamond) {
        Ok(dg) => dg,
        Err(_) => panic!("the graph has no cycle"),
    };
    assert_eq!(dg.nodes().iter().copied().collect::<HashSet<_>>(), set(&[2, 3]));
    assert_eq!(dg.all_deps_for(&2), vec![3]);
}

#[test]
fn dep_graph_places_and_nodes_answer_each_other() {
    let dg = match DepGraph::build(vec![0, 1], |_| panic!(), diamond) {
        Ok(dg) => dg,
        Err(_) => panic!("the graph has no cycle"),
    };
    let mut places = Vec::new();
    for node in [0u64, 1, 2, 3] {
        let place = dg.index(&node);
        assert!(place < 4);
        assert_eq!(dg.value(place), node);
        places.push(place);
    }
    places.sort();
    assert_eq!(places, vec![0, 1, 2, 3]);
    for place in 0..4 {
        assert_eq!(dg.index(&dg.value(place)), place);
    }
}
