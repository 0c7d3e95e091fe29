use depot::workspace::dep_graph::{DepGraph, GraphError, TableSource};
use std::collections::HashSet;

/// A small generator of numbers that look random and are the same on every run.
struct Numbers(u64);

impl Numbers {
    fn next(&mut self, below: u64) -> u64 {
        self.0 = self.0.wrapping_mul(6364136223846793005).wrapping_add(1442695040888963407);
        (self.0 >> 33) % below
    }
}

fn table(n: u64, edges_per_node: u64, forward_only: bool, numbers: &mut Numbers) -> Vec<Vec<u64>> {
    (0..n)
        .map(|i| {
            let count = numbers.next(edges_per_node + 1);
            (0..count)
                .filter_map(|_| {
                    if forward_only {
                        (i + 1 < n).then(|| i + 1 + numbers.next(n - i - 1))
                    } else {
                        Some(numbers.next(n))
                    }
                })
                .collect()
        })
        .collect()
}

fn reach(deps: &[Vec<u64>], from: u64) -> HashSet<u64> {
    let mut seen = HashSet::new();
    let mut stack: Vec<u64> = deps[from as usize].clone();
    while let Some(x) = stack.pop() {
        if seen.insert(x) {
            stack.extend(deps[x as usize].iter().copied());
        }
    }
    seen
}

fn source(deps: &[Vec<u64>]) -> TableSource {
    TableSource { deps: deps.to_vec(), names: (0..deps.len()).map(|i| format!("n{i}")).collect() }
}

#[test]
fn graphs_without_cycles_answer_as_a_plain_search_does() {
    let mut numbers = Numbers(7);
    for round in 0..60 {
        let n = 1 + numbers.next(12);
        let deps = table(n, 3, true, &mut numbers);
        let roots: Vec<u64> = (0..n).filter(|_| numbers.next(3) == 0).collect();
        let g = match DepGraph::build_from(roots.clone(), &source(&deps)) {
            Ok(g) => g,
            Err(e) => panic!("round {round}: no cycle is there, but {e:?}"),
        };
        let mut expected: HashSet<u64> = roots.iter().copied().collect();
        for &r in &roots {
            expected.extend(reach(&deps, r));
        }
        let nodes = g.nodes();
        assert_eq!(nodes.len(), expected.len());
        assert_eq!(nodes.iter().copied().collect::<HashSet<_>>(), expected);
        assert_eq!(g.roots(), &roots);
        for &x in &nodes {
            let mut given = deps[x as usize].clone();
            given.reverse();
            assert_eq!(g.immediate_deps_for(&x), given);
            let all = g.all_deps_for(&x);
            assert_eq!(all.len(), all.iter().collect::<HashSet<_>>().len());
            assert_eq!(all.iter().copied().collect::<HashSet<_>>(), reach(&deps, x));
            assert!(!all.contains(&x));
            for y in 0..n {
                assert_eq!(g.is_dependent_on(&x, &y), reach(&deps, x).contains(&y));
            }
        }
    }
}

#[test]
fn graphs_are_refused_exactly_when_a_reachable_node_reaches_itself() {
    let mut numbers = Numbers(99);
    let (mut accepted, mut refused) = (0, 0);
    for _ in 0..200 {
        let n = 1 + numbers.next(7);
        let deps = table(n, 2, false, &mut numbers);
        let roots: Vec<u64> = vec![numbers.next(n)];
        let mut nodes: HashSet<u64> = reach(&deps, roots[0]);
        nodes.insert(roots[0]);
        let on_cycle: HashSet<u64> = nodes.iter().copied().filter(|&x| reach(&deps, x).contains(&x)).collect();
        match DepGraph::build_from(roots, &source(&deps)) {
            Ok(g) => {
                accepted += 1;
                assert!(on_cycle.is_empty());
                assert_eq!(g.nodes().into_iter().collect::<HashSet<_>>(), nodes);
            }
            Err(GraphError::CycleDetected { node, name }) => {
                refused += 1;
                assert!(on_cycle.contains(&node));
                assert_eq!(name, format!("n{node}"));
            }
            Err(GraphError::TooLarge) => panic!("the graph is small"),
        }
    }
    assert!(accepted > 10 && refused > 10);
}

#[test]
fn a_table_gives_no_dependencies_beyond_its_end() {
    let g = match DepGraph::build_from(vec![0, 9], &source(&[vec![5], vec![]])) {
        Ok(g) => g,
        Err(_) => panic!(),
    };
    assert_eq!(g.nodes().into_iter().collect::<HashSet<_>>(), [0, 5, 9].into_iter().collect());
    assert_eq!(g.immediate_deps_for(&5), Vec::<u64>::new());
    assert_eq!(g.immediate_deps_for(&9), Vec::<u64>::new());
    match DepGraph::build_from(vec![7], &source(&[])) {
        Ok(g) => assert_eq!(g.nodes(), vec![7]),
        Err(_) => panic!(),
    }
}
